//! The game as mathematics: the bag, the score, and the state machine that a
//! tick advances. [`crate::tetris::Tetris`] computes it.

use crate::grid::collides;
use crate::grid::consumed;
use crate::grid::drop_distance;
use crate::grid::first_fit;
use crate::grid::fits;
use crate::grid::is_grid;
use crate::grid::kicked;
use crate::grid::lemma_consumed_is_grid;
use crate::grid::lemma_drop_exists;
use crate::grid::lemma_drop_is_exact;
use crate::grid::lemma_drop_stays_above;
use crate::grid::lemma_spawn_is_inside;
use crate::grid::merged;
use crate::grid::moved;
use crate::grid::overflows;
use crate::grid::spun;
use crate::grid::width;
use crate::menu::lemma_fresh_wf;
use crate::menu::lemma_moves_keep_wf;
use crate::menu::MenuItem;
use crate::menu::MenuView;
use crate::settings::blank;
use crate::settings::Action;
use crate::settings::Picture;
use crate::settings::Settings;
use crate::settings::Signal;
use crate::settings::Timestamp;
use crate::tetromino::Piece;
use crate::tetromino::Tetromino;
use crate::tetromino::I;
use crate::tetromino::J;
use crate::tetromino::L;
use crate::tetromino::O;
use crate::tetromino::S;
use crate::tetromino::T;
use crate::tetromino::Z;
use vstd::multiset::Multiset;
use vstd::prelude::*;

verus! {

/// How many sets of the seven tetrominoes go into the bag when it is refilled.
pub const BAG_SIZE: u8 = 3;

/// What a line of a menu of the game stands for.
#[derive(Clone, Copy, Debug, PartialEq, Eq, Structural)]
pub enum TetrisPause {
    Title,
    Continue,
    Restart,
    Exit,
}

/// Where the game is in the life of a block.
pub enum Phase {
    /// No block yet.
    Start,
    /// A block falls; the tetromino is the one to come after it.
    Fall(Piece, Tetromino),
    /// The block has come to rest and is about to be locked.
    Drop(Piece, Tetromino),
    /// A new block found no room.
    GameOver,
}

/// The seven tetrominoes in the order in which they go into the bag.
pub open spec fn full_set() -> Seq<Tetromino> {
    seq![
        Tetromino::I(I()),
        Tetromino::T(T()),
        Tetromino::J(J()),
        Tetromino::L(L()),
        Tetromino::S(S()),
        Tetromino::Z(Z()),
        Tetromino::O(O()),
    ]
}

/// `batches` sets of the seven tetrominoes, one after the other.
pub open spec fn refill(batches: nat) -> Seq<Tetromino>
    decreases batches,
{
    if batches == 0 {
        Seq::empty()
    } else {
        refill((batches - 1) as nat) + full_set()
    }
}

/// The bag as it is drawn from: refilled if it was empty.
pub open spec fn stocked(bag: Seq<Tetromino>) -> Seq<Tetromino> {
    if bag.len() == 0 {
        refill(BAG_SIZE as nat)
    } else {
        bag
    }
}

/// Which of `len` tetrominoes is drawn at `moment`.
pub open spec fn pick(moment: Timestamp, len: int) -> int {
    (moment % 1000) as int % len
}

/// The tetromino that comes out of the bag at `moment`, and the bag without
/// it. An empty bag is refilled first.
pub open spec fn dealt(bag: Seq<Tetromino>, moment: Timestamp) -> (Tetromino, Seq<Tetromino>) {
    let full = stocked(bag);
    let at = pick(moment, full.len() as int);
    (full[at], full.remove(at))
}

/// The tetrominoes that come out of the bag when it is drawn from at each of
/// `moments` in turn, and the bag after the last draw.
pub open spec fn dealt_all(bag: Seq<Tetromino>, moments: Seq<Timestamp>) -> (
    Seq<Tetromino>,
    Seq<Tetromino>,
)
    decreases moments.len(),
{
    if moments.len() == 0 {
        (Seq::empty(), bag)
    } else {
        let (kind, rest) = dealt(bag, moments[0]);
        let (kinds, end) = dealt_all(rest, moments.drop_first());
        (seq![kind] + kinds, end)
    }
}

/// The points for clearing `lines` rows with one block.
pub open spec fn award(lines: int) -> int {
    lines * (lines + 1) / 2
}

/// The score after `lines` rows are cleared with one block. It stops at the
/// largest number it can hold.
pub open spec fn scored(score: u32, lines: int) -> u32 {
    if score + award(lines) > u32::MAX {
        u32::MAX
    } else {
        (score + award(lines)) as u32
    }
}

/// The time from `moment` to `now`, none if `now` is the earlier.
pub open spec fn elapsed(now: Timestamp, moment: Timestamp) -> int {
    if now >= moment {
        now - moment
    } else {
        0
    }
}

/// The lines of the menu that pauses the game.
pub open spec fn pause_items() -> Seq<MenuItem<TetrisPause>> {
    seq![
        MenuItem { id: TetrisPause::Title, string: "Menu", selectable: false },
        MenuItem { id: TetrisPause::Continue, string: "Continue", selectable: true },
        MenuItem { id: TetrisPause::Restart, string: "New Game", selectable: true },
        MenuItem { id: TetrisPause::Exit, string: "Exit", selectable: true },
    ]
}

/// The lines of the menu that ends the game.
pub open spec fn over_items() -> Seq<MenuItem<TetrisPause>> {
    seq![
        MenuItem { id: TetrisPause::Title, string: "You Died", selectable: false },
        MenuItem { id: TetrisPause::Restart, string: "New Game", selectable: true },
        MenuItem { id: TetrisPause::Exit, string: "Exit", selectable: true },
    ]
}

/// Whether the menu has a line to go on with the game.
pub open spec fn resumable(menu: MenuView<TetrisPause>) -> bool {
    exists|i: int| 0 <= i < menu.items.len() && (#[trigger] menu.items[i]).id == TetrisPause::Continue
}

/// The mathematical content of a [`crate::tetris::Tetris`].
pub struct Machine {
    pub settings: Settings,
    /// When gravity last pulled, or the player pushed the block down.
    pub moment: Timestamp,
    pub grid: Seq<Seq<u8>>,
    pub phase: Phase,
    /// The menu that lies over the game, if one does.
    pub overlay: Option<MenuView<TetrisPause>>,
    pub score: u32,
    pub bag: Seq<Tetromino>,
}

impl Machine {
    /// What holds of the game at every tick.
    pub open spec fn wf(self) -> bool {
        &&& self.settings.valid()
        &&& is_grid(self.grid)
        &&& self.grid.len() == self.settings.rows
        &&& width(self.grid) == self.settings.cols
        &&& match self.phase {
            Phase::Fall(piece, _) | Phase::Drop(piece, _) => piece.upright()
                && piece.representable(),
            _ => true,
        }
        &&& match self.overlay {
            Some(menu) => menu.wf() && (menu.items == pause_items() || menu.items
                == over_items()),
            None => true,
        }
    }

    /// A new game.
    pub open spec fn fresh(settings: Settings, start: Timestamp) -> Machine {
        Machine {
            settings,
            moment: start,
            grid: blank(settings.rows as int, settings.cols as int),
            phase: Phase::Start,
            overlay: None,
            score: 0,
            bag: Seq::empty(),
        }
    }

    /// A tetromino drawn from the bag, and the game after the draw. An empty
    /// bag is refilled first.
    pub open spec fn draw(self) -> (Tetromino, Machine) {
        let (kind, bag) = dealt(self.bag, self.moment);
        (kind, Machine { bag, ..self })
    }

    /// Whether the block, if there is one, is where a block can be.
    pub open spec fn settled(self) -> bool {
        match self.phase {
            Phase::Fall(piece, _) | Phase::Drop(piece, _) => fits(self.grid, piece),
            _ => true,
        }
    }

    /// The game with `piece` as its new block: the tetromino to come after
    /// it is drawn, and the game is over if the piece lies on taken cells.
    pub open spec fn cycled(self, piece: Piece) -> Machine {
        let (next, game) = self.draw();
        Machine {
            phase: if collides(game.grid, piece) {
                Phase::GameOver
            } else {
                Phase::Fall(piece, next)
            },
            ..game
        }
    }

    /// The game after its first block is drawn and set above the field.
    pub open spec fn started(self) -> Machine {
        let (kind, game) = self.draw();
        game.cycled(Piece::spawned(kind, game.settings.cols as int))
    }

    /// The game after a tick in which the block falls, and whether anything
    /// moved. First the action is applied to the block; then, if the block is
    /// not at rest already and the delay has passed, gravity pulls it down a
    /// row. A block that cannot go down when asked to is at rest.
    pub open spec fn fallen(self, now: Timestamp, action: Option<Action>) -> (Machine, bool) {
        match self.phase {
            Phase::Fall(piece, next) => {
                let (pushed, changed, rest, moment) = match action {
                    Some(Action::Left) => {
                        let (to, ok) = moved(self.grid, piece, -1, 0);
                        (to, ok, false, self.moment)
                    },
                    Some(Action::Right) => {
                        let (to, ok) = moved(self.grid, piece, 1, 0);
                        (to, ok, false, self.moment)
                    },
                    Some(Action::Down) => {
                        let (to, ok) = moved(self.grid, piece, 0, 1);
                        (to, ok, !ok, now)
                    },
                    Some(Action::Drop) => {
                        let distance = drop_distance(self.grid, piece);
                        (piece.shifted(0, distance), distance > 0, true, self.moment)
                    },
                    Some(Action::Up) => {
                        let (to, ok) = spun(self.grid, piece);
                        (to, ok, false, self.moment)
                    },
                    _ => (piece, false, false, self.moment),
                };
                if !rest && elapsed(now, moment) >= self.settings.delay {
                    let (to, ok) = moved(self.grid, pushed, 0, 1);
                    (
                        Machine {
                            moment: now,
                            phase: if ok {
                                Phase::Fall(to, next)
                            } else {
                                Phase::Drop(to, next)
                            },
                            ..self
                        },
                        changed || ok,
                    )
                } else {
                    (
                        Machine {
                            moment,
                            phase: if rest {
                                Phase::Drop(pushed, next)
                            } else {
                                Phase::Fall(pushed, next)
                            },
                            ..self
                        },
                        changed,
                    )
                }
            },
            _ => (self, false),
        }
    }

    /// The game after the block at rest is locked: the rows it filled are
    /// cleared and paid for, and the tetromino that was to come is the new
    /// block.
    pub open spec fn landed(self) -> Machine {
        match self.phase {
            Phase::Drop(piece, next) => {
                let (grid, lines) = consumed(self.grid, piece);
                let game = Machine {
                    grid,
                    score: scored(self.score, lines),
                    phase: Phase::Start,
                    ..self
                };
                game.cycled(Piece::spawned(next, self.settings.cols as int))
            },
            _ => self,
        }
    }

    /// What there is to draw of the game itself.
    pub open spec fn picture(self) -> Picture {
        match self.phase {
            Phase::Fall(piece, next) | Phase::Drop(piece, next) => Picture {
                main: merged(self.grid, piece),
                preview: next.preview_cells(),
                score: self.score,
            },
            _ => Picture { main: self.grid, preview: blank(4, 4), score: self.score },
        }
    }

    /// What there is to draw: the menu if one lies over the game, the game
    /// if not.
    pub open spec fn shown(self) -> Signal<TetrisPause> {
        match self.overlay {
            Some(menu) => Signal::Text(menu),
            None => Signal::Draw(self.picture()),
        }
    }

    /// The game after a tick at `now` with `action`, and what the tick asks
    /// of the driver.
    pub open spec fn step(self, now: Timestamp, action: Option<Action>) -> (
        Machine,
        Signal<TetrisPause>,
    ) {
        match self.overlay {
            Some(menu) => match action {
                Some(Action::Escape) => if resumable(menu) {
                    let game = Machine { overlay: None, ..self };
                    (game, game.shown())
                } else {
                    (self, Signal::Idle)
                },
                Some(Action::Up) => {
                    let game = Machine { overlay: Some(menu.up()), ..self };
                    (game, game.shown())
                },
                Some(Action::Down) => {
                    let game = Machine { overlay: Some(menu.down()), ..self };
                    (game, game.shown())
                },
                Some(Action::Drop) => match menu.chosen() {
                    Some(TetrisPause::Continue) => {
                        let game = Machine { overlay: None, ..self };
                        (game, game.shown())
                    },
                    Some(TetrisPause::Restart) => (self, Signal::Restart),
                    Some(TetrisPause::Exit) => (self, Signal::Exit),
                    _ => (self, Signal::Idle),
                },
                _ => (self, Signal::Idle),
            },
            None => if action == Some(Action::Escape) {
                let game = Machine { overlay: Some(MenuView::fresh(pause_items())), ..self };
                (game, game.shown())
            } else {
                match self.phase {
                    Phase::Start => {
                        let game = self.started();
                        (game, game.shown())
                    },
                    Phase::Fall(_, _) => {
                        let (game, changed) = self.fallen(now, action);
                        if changed {
                            (game, game.shown())
                        } else {
                            (game, Signal::Idle)
                        }
                    },
                    Phase::Drop(_, _) => {
                        let game = self.landed();
                        (game, game.shown())
                    },
                    Phase::GameOver => {
                        let game = Machine {
                            overlay: Some(MenuView::fresh(over_items())),
                            ..self
                        };
                        (game, game.shown())
                    },
                }
            },
        }
    }
}

/// A refill holds seven tetrominoes for each batch.
pub proof fn lemma_refill_len(batches: nat)
    ensures
        refill(batches).len() == 7 * batches,
    decreases batches,
{
    if batches > 0 {
        lemma_refill_len((batches - 1) as nat);
    }
}

/// Draws that a bag in stock can serve take one tetromino each out of it:
/// what is drawn and what is left make up what was there.
pub proof fn lemma_dealt_all(bag: Seq<Tetromino>, moments: Seq<Timestamp>)
    requires
        1 <= moments.len() <= stocked(bag).len(),
    ensures
        dealt_all(bag, moments).0.len() == moments.len(),
        dealt_all(bag, moments).1.len() == stocked(bag).len() - moments.len(),
        dealt_all(bag, moments).0.to_multiset().add(dealt_all(bag, moments).1.to_multiset())
            == stocked(bag).to_multiset(),
    decreases moments.len(),
{
    let full = stocked(bag);
    let (kinds, end) = dealt_all(bag, moments);
    let at = pick(moments[0], full.len() as int);
    let (kind, rest) = dealt(bag, moments[0]);
    let later = moments.drop_first();
    let (more, last) = dealt_all(rest, later);
    if later.len() > 0 {
        lemma_dealt_all(rest, later);
    } else {
        lemma_empty_to_multiset(more);
        assert(more.to_multiset().add(last.to_multiset()) =~= rest.to_multiset());
    }
    vstd::seq_lib::to_multiset_remove(full, at);
    full.to_multiset_ensures();
    assert(full.contains(full[at]));
    lemma_prepend_to_multiset(kind, more);
    assert(more.to_multiset().add(last.to_multiset()) == rest.to_multiset());
    assert(rest.to_multiset() == full.to_multiset().remove(kind));
    assert(full.to_multiset().count(kind) > 0);
    assert(kinds.to_multiset() == more.to_multiset().insert(kind));
    assert(kinds.to_multiset().add(end.to_multiset()) =~= full.to_multiset());
}

proof fn lemma_empty_to_multiset(kinds: Seq<Tetromino>)
    requires
        kinds.len() == 0,
    ensures
        kinds.to_multiset() == Multiset::<Tetromino>::empty(),
{
    kinds.to_multiset_ensures();
    assert forall|kind: Tetromino| kinds.to_multiset().count(kind) == 0 by {
        assert(!kinds.contains(kind));
    }
    assert(kinds.to_multiset() =~= Multiset::empty());
}

proof fn lemma_prepend_to_multiset(kind: Tetromino, kinds: Seq<Tetromino>)
    ensures
        (seq![kind] + kinds).to_multiset() == kinds.to_multiset().insert(kind),
    decreases kinds.len(),
{
    let all = seq![kind] + kinds;
    if kinds.len() == 0 {
        assert(all =~= Seq::empty().push(kind));
        Seq::<Tetromino>::empty().to_multiset_ensures();
        assert(kinds =~= Seq::empty());
        lemma_empty_to_multiset(kinds);
    } else {
        let front = kinds.drop_last();
        lemma_prepend_to_multiset(kind, front);
        assert(all =~= (seq![kind] + front).push(kinds.last()));
        assert(kinds =~= front.push(kinds.last()));
        (seq![kind] + front).to_multiset_ensures();
        front.to_multiset_ensures();
        assert(all.to_multiset() =~= kinds.to_multiset().insert(kind));
    }
}

/// As many draws from an empty bag as a refill holds bring out every
/// tetromino of the refill and leave the bag empty, and the draw after them
/// refills it again.
pub proof fn lemma_bag_runs_out(moments: Seq<Timestamp>, next: Timestamp)
    requires
        moments.len() == 7 * BAG_SIZE,
    ensures
        dealt_all(Seq::empty(), moments).1.len() == 0,
        dealt_all(Seq::empty(), moments).0.to_multiset() == refill(BAG_SIZE as nat).to_multiset(),
        dealt(dealt_all(Seq::empty(), moments).1, next).1.len() == 7 * BAG_SIZE - 1,
{
    lemma_refill_len(BAG_SIZE as nat);
    lemma_dealt_all(Seq::empty(), moments);
    let (kinds, end) = dealt_all(Seq::empty(), moments);
    lemma_empty_to_multiset(end);
    assert(kinds.to_multiset().add(end.to_multiset()) =~= kinds.to_multiset());
}

/// A new game is as a game has to be.
pub proof fn lemma_fresh_is_sound(settings: Settings, start: Timestamp)
    requires
        settings.valid(),
    ensures
        Machine::fresh(settings, start).wf(),
        Machine::fresh(settings, start).settled(),
{
    let grid = blank(settings.rows as int, settings.cols as int);
    assert(grid[0].len() == settings.cols);
}

/// While a menu lies over the game, a tick changes nothing but the menu.
pub proof fn lemma_menu_leaves_game(game: Machine, now: Timestamp, action: Option<Action>)
    requires
        game.overlay is Some,
    ensures
        game.step(now, action).0 == (Machine { overlay: game.step(now, action).0.overlay, ..game }),
{
}

/// A tick keeps what holds of the game at every tick.
pub proof fn lemma_step_keeps_wf(game: Machine, now: Timestamp, action: Option<Action>)
    requires
        game.wf(),
    ensures
        game.step(now, action).0.wf(),
{
    lemma_fresh_wf(pause_items());
    lemma_fresh_wf(over_items());
    match game.overlay {
        Some(menu) => {
            lemma_moves_keep_wf(menu);
        },
        None => {
            match game.phase {
                Phase::Start => {
                    lemma_started_wf(game);
                },
                Phase::Fall(piece, _) => {
                    lemma_fallen_wf(game, now, action);
                },
                Phase::Drop(piece, next) => {
                    lemma_landed_wf(game);
                },
                Phase::GameOver => {},
            }
        },
    }
}

proof fn lemma_cycled_wf(game: Machine, piece: Piece)
    requires
        game.wf(),
        piece.upright(),
        piece.representable(),
    ensures
        game.cycled(piece).wf(),
{
}

proof fn lemma_started_wf(game: Machine)
    requires
        game.wf(),
    ensures
        game.started().wf(),
{
    let (kind, drawn) = game.draw();
    lemma_spawn_is_inside(game.grid, kind);
    lemma_cycled_wf(drawn, Piece::spawned(kind, drawn.settings.cols as int));
}

proof fn lemma_landed_wf(game: Machine)
    requires
        game.wf(),
    ensures
        game.landed().wf(),
{
    if let Phase::Drop(piece, next) = game.phase {
        lemma_consumed_is_grid(game.grid, piece);
        let (grid, lines) = consumed(game.grid, piece);
        let cleared = Machine {
            grid,
            score: scored(game.score, lines),
            phase: Phase::Start,
            ..game
        };
        lemma_spawn_is_inside(grid, next);
        lemma_cycled_wf(cleared, Piece::spawned(next, game.settings.cols as int));
    }
}

proof fn lemma_spun_keeps_upright(grid: Seq<Seq<u8>>, piece: Piece)
    requires
        piece.upright(),
        piece.representable(),
    ensures
        spun(grid, piece).0.upright(),
        spun(grid, piece).0.representable(),
{
    lemma_first_fit(grid, piece, 0);
}

/// The kick that `first_fit` finds is one of the table, and the turn it
/// proposes fits.
pub proof fn lemma_first_fit(grid: Seq<Seq<u8>>, piece: Piece, from: int)
    requires
        0 <= from,
    ensures
        match first_fit(grid, piece, from) {
            Some(k) => {
                &&& from <= k < piece.tetromino.kicks(piece.rotation).len()
                &&& fits(grid, kicked(piece, k))
                &&& forall|earlier: int| from <= earlier < k ==> !fits(grid, kicked(piece, earlier))
            },
            None => forall|k: int|
                from <= k < piece.tetromino.kicks(piece.rotation).len() ==> !fits(
                    grid,
                    kicked(piece, k),
                ),
        },
    decreases piece.tetromino.kicks(piece.rotation).len() - from,
{
    if from < piece.tetromino.kicks(piece.rotation).len() && !fits(grid, kicked(piece, from)) {
        lemma_first_fit(grid, piece, from + 1);
    }
}

proof fn lemma_fallen_wf(game: Machine, now: Timestamp, action: Option<Action>)
    requires
        game.wf(),
    ensures
        game.fallen(now, action).0.wf(),
{
    if let Phase::Fall(piece, next) = game.phase {
        lemma_spun_keeps_upright(game.grid, piece);
        lemma_drop_exists(game.grid, piece);
        lemma_drop_stays_above(game.grid, piece, drop_distance(game.grid, piece));
    }
}

/// A tick leaves the block where a block can be, if it was.
pub proof fn lemma_step_keeps_settled(game: Machine, now: Timestamp, action: Option<Action>)
    requires
        game.wf(),
        game.settled(),
    ensures
        game.step(now, action).0.settled(),
{
    if game.overlay is None {
        match game.phase {
            Phase::Start => {
                let (kind, drawn) = game.draw();
                lemma_spawn_is_inside(game.grid, kind);
            },
            Phase::Fall(piece, _) => {
                lemma_first_fit(game.grid, piece, 0);
                lemma_drop_is_exact(game.grid, piece);
            },
            Phase::Drop(piece, next) => {
                lemma_consumed_is_grid(game.grid, piece);
                lemma_spawn_is_inside(consumed(game.grid, piece).0, next);
            },
            Phase::GameOver => {},
        }
    }
}

/// A tick never takes points away.
pub proof fn lemma_score_never_falls(game: Machine, now: Timestamp, action: Option<Action>)
    requires
        game.wf(),
    ensures
        game.step(now, action).0.score >= game.score,
{
    if let Phase::Drop(piece, next) = game.phase {
        lemma_consumed_is_grid(game.grid, piece);
        let lines = consumed(game.grid, piece).1;
        assert(award(lines) >= 0) by (nonlinear_arith)
            requires
                lines >= 0,
        ;
    }
}

/// A new game whose first block finds taken cells where it is set is over
/// at its first tick, whatever the player does short of pausing.
pub proof fn lemma_crowded_start_ends_game(game: Machine, now: Timestamp, action: Option<Action>)
    requires
        game.overlay is None,
        game.phase is Start,
        action != Some(Action::Escape),
        collides(game.grid, Piece::spawned(game.draw().0, game.settings.cols as int)),
    ensures
        game.step(now, action).0.phase is GameOver,
        game.step(now, action).0.grid == game.grid,
        game.step(now, action).0.score == game.score,
{
}

/// The same of the block that follows one that was locked: if it finds
/// taken cells where it is set, the game is over at that tick.
pub proof fn lemma_crowded_field_ends_game(game: Machine, now: Timestamp, action: Option<Action>)
    requires
        game.overlay is None,
        game.phase is Drop,
        action != Some(Action::Escape),
        collides(
            consumed(game.grid, game.phase->Drop_0).0,
            Piece::spawned(game.phase->Drop_1, game.settings.cols as int),
        ),
    ensures
        game.step(now, action).0.phase is GameOver,
{
}

/// A block against the left wall stays where it is when the player pushes it
/// left, and as long as gravity is not due the tick changes nothing and asks
/// for nothing to be drawn.
pub proof fn lemma_left_at_wall_is_idle(game: Machine, now: Timestamp)
    requires
        game.overlay is None,
        game.phase is Fall,
        exists|r: int| game.phase->Fall_0.covers(r, 0),
        elapsed(now, game.moment) < game.settings.delay,
    ensures
        game.step(now, Some(Action::Left)) == (game, Signal::<TetrisPause>::Idle),
{
    let piece = game.phase->Fall_0;
    let r = choose|r: int| piece.covers(r, 0);
    let pushed = piece.shifted(-1, 0);
    assert(pushed.covers(r, -1));
    assert(overflows(game.grid, pushed));
}

} // verus!

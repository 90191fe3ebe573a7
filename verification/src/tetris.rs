//! The game: a bag that deals tetrominoes, and a state machine that a driver
//! advances one tick at a time.

use crate::grid::lemma_consumed_is_grid;
use crate::machine::full_set;
use crate::machine::lemma_refill_len;
use crate::machine::lemma_step_keeps_settled;
use crate::machine::over_items;
use crate::machine::pause_items;
use crate::machine::refill;
use crate::machine::resumable;
use crate::machine::Machine;
use crate::machine::Phase;
use crate::machine::BAG_SIZE;
use crate::menu::MenuItem;
use crate::menu::MenuMode;
use crate::menu::MenuView;
use crate::settings::blank;
use crate::settings::Action;
use crate::settings::GameChange;
use crate::settings::GameMode;
use crate::settings::Renderable;
use crate::settings::Settings;
use crate::settings::Timestamp;
use crate::tetrisfield::TetrisField;
use crate::tetromino::Block;
use crate::tetromino::Tetromino;
use crate::tetromino::I;
use crate::tetromino::J;
use crate::tetromino::L;
use crate::tetromino::O;
use crate::tetromino::S;
use crate::tetromino::T;
use crate::tetromino::Z;
use vstd::prelude::*;

pub use crate::machine::TetrisPause;

verus! {

/// Where the game is in the life of a block.
#[derive(Debug)]
pub enum GameState {
    /// No block yet.
    Start,
    /// A block falls; the tetromino is the one to come after it.
    Fall(Block, Tetromino),
    /// The block has come to rest and is about to be locked.
    Drop(Block, Tetromino),
    /// A new block found no room.
    GameOver,
}

impl View for GameState {
    type V = Phase;

    open spec fn view(&self) -> Phase {
        match *self {
            GameState::Start => Phase::Start,
            GameState::Fall(block, next) => Phase::Fall(block@, next),
            GameState::Drop(block, next) => Phase::Drop(block@, next),
            GameState::GameOver => Phase::GameOver,
        }
    }
}

/// The game.
pub struct Tetris {
    settings: Settings,
    moment: Timestamp,
    field: TetrisField,
    state: GameState,
    pause: Option<MenuMode<TetrisPause>>,
    score: u32,
    bag: Vec<Tetromino>,
}

impl View for Tetris {
    type V = Machine;

    closed spec fn view(&self) -> Machine {
        Machine {
            settings: self.settings,
            moment: self.moment,
            grid: self.field@,
            phase: self.state@,
            overlay: match self.pause {
                Some(menu) => Some(menu@),
                None => None,
            },
            score: self.score,
            bag: self.bag@,
        }
    }
}

impl Tetris {
    /// What holds of the game at every tick: see [`Machine::wf`].
    pub open spec fn wf(&self) -> bool {
        self@.wf()
    }

    /// A new game on an empty field, with the clock at `start`.
    pub fn new(settings: Settings, start: Timestamp) -> (game: Tetris)
        requires
            settings.valid(),
        ensures
            game@ == Machine::fresh(settings, start),
            game.wf(),
            game@.settled(),
    {
        let field = TetrisField::new(&settings);
        Tetris {
            moment: start,
            settings,
            field,
            state: GameState::Start,
            pause: None,
            score: 0,
            bag: Vec::new(),
        }
    }

    /// One tick of the game at `now`, with what the player did since the
    /// last one. A menu that lies over the game takes the action; without
    /// one, `Escape` pauses the game, and anything else goes to the state
    /// the game is in.
    pub fn frame(&mut self, now: Timestamp, action: Option<Action>) -> (change: GameChange<
        '_,
        TetrisPause,
    >)
        requires
            old(self).wf(),
        ensures
            (final(self)@, change@) == old(self)@.step(now, action),
            final(self).wf(),
            old(self)@.settled() ==> final(self)@.settled(),
    {
        proof {
            if self@.settled() {
                lemma_step_keeps_settled(self@, now, action);
            }
        }
        let mut pause: Option<MenuMode<TetrisPause>> = None;
        core::mem::swap(&mut self.pause, &mut pause);
        match pause {
            None => {
                match action {
                    Some(Action::Escape) => {
                        self.pause = Some(Tetris::pause_menu());
                    },
                    _ => {
                        match self.state {
                            GameState::Start => self.state_start(),
                            GameState::Fall(_, _) => {
                                if !self.state_fall(now, action) {
                                    return GameChange::Idle;
                                }
                            },
                            GameState::Drop(_, _) => self.state_drop(),
                            GameState::GameOver => {
                                self.pause = Some(Tetris::over_menu());
                            },
                        }
                    },
                }
            },
            Some(mut menu) => {
                match action {
                    Some(Action::Escape) => {
                        if !Tetris::offers_continue(&menu) {
                            self.pause = Some(menu);
                            return GameChange::Idle;
                        }
                    },
                    Some(Action::Up) => {
                        menu.up();
                        self.pause = Some(menu);
                    },
                    Some(Action::Down) => {
                        menu.down();
                        self.pause = Some(menu);
                    },
                    Some(Action::Drop) => {
                        let choice: Option<TetrisPause> = match menu.select() {
                            Some(id) => Some(*id),
                            None => None,
                        };
                        self.pause = Some(menu);
                        match choice {
                            Some(TetrisPause::Continue) => {
                                self.pause = None;
                            },
                            Some(TetrisPause::Restart) => {
                                return GameChange::Restart;
                            },
                            Some(TetrisPause::Exit) => {
                                return GameChange::Exit;
                            },
                            _ => {
                                return GameChange::Idle;
                            },
                        }
                    },
                    _ => {
                        self.pause = Some(menu);
                        return GameChange::Idle;
                    },
                }
            },
        }
        match &self.pause {
            Some(menu) => GameChange::Text(menu),
            None => GameChange::Draw(self.to_drawable()),
        }
    }

    /// Whether the menu has a line to go on with the game.
    fn offers_continue(menu: &MenuMode<TetrisPause>) -> (yes: bool)
        ensures
            yes == resumable(menu@),
    {
        let items = menu.get_items();
        let mut i: usize = 0;
        while i < items.len()
            invariant
                items@ == menu@.items,
                forall|k: int| 0 <= k < i ==> (#[trigger] items@[k]).id != TetrisPause::Continue,
            decreases items@.len() - i,
        {
            if items[i].id == TetrisPause::Continue {
                return true;
            }
            i += 1;
        }
        false
    }

    /// Draws a tetromino from the bag, which is refilled first if it is empty.
    pub fn random_block(&mut self) -> (kind: Tetromino)
        ensures
            (kind, final(self)@) == old(self)@.draw(),
    {
        if self.bag.len() == 0 {
            let mut batch: u8 = 0;
            while batch < BAG_SIZE
                invariant
                    batch <= BAG_SIZE,
                    self.bag@ == refill(batch as nat),
                    self.settings == old(self).settings,
                    self.moment == old(self).moment,
                    self.field == old(self).field,
                    self.state == old(self).state,
                    self.pause == old(self).pause,
                    self.score == old(self).score,
                decreases BAG_SIZE - batch,
            {
                let ghost before = self.bag@;
                self.bag.push(Tetromino::from(I()));
                self.bag.push(Tetromino::from(T()));
                self.bag.push(Tetromino::from(J()));
                self.bag.push(Tetromino::from(L()));
                self.bag.push(Tetromino::from(S()));
                self.bag.push(Tetromino::from(Z()));
                self.bag.push(Tetromino::from(O()));
                assert(self.bag@ =~= before + full_set());
                batch += 1;
            }
        }
        proof {
            lemma_refill_len(BAG_SIZE as nat);
        }
        let at: usize = (self.moment % 1000) as usize % self.bag.len();
        self.bag.remove(at)
    }

    /// The first tick: draws a tetromino and sets it above the field.
    pub fn state_start(&mut self)
        requires
            old(self).wf(),
        ensures
            final(self)@ == old(self)@.started(),
            final(self).wf(),
    {
        let kind = self.random_block();
        let block = Block::spawn(kind, &self.settings);
        self.run_cicle(block);
    }

    /// A tick in which the block falls: applies `action` to it and lets
    /// gravity pull if the delay has passed. Says whether anything moved.
    pub fn state_fall(&mut self, now: Timestamp, action: Option<Action>) -> (changed: bool)
        requires
            old(self).wf(),
        ensures
            (final(self)@, changed) == old(self)@.fallen(now, action),
            final(self).wf(),
    {
        let mut state = GameState::Start;
        core::mem::swap(&mut self.state, &mut state);
        match state {
            GameState::Fall(mut block, next) => {
                let mut rest: bool = false;
                let mut changed: bool = false;
                match action {
                    Some(Action::Left) => {
                        changed = self.field.try_move(&mut block, -1, 0);
                    },
                    Some(Action::Right) => {
                        changed = self.field.try_move(&mut block, 1, 0);
                    },
                    Some(Action::Down) => {
                        self.moment = now;
                        if self.field.try_move(&mut block, 0, 1) {
                            changed = true;
                        } else {
                            rest = true;
                        }
                    },
                    Some(Action::Drop) => {
                        changed = self.field.drop(&mut block) > 0;
                        rest = true;
                    },
                    Some(Action::Up) => {
                        changed = self.field.try_rotate(&mut block);
                    },
                    _ => {},
                }
                let waited: Timestamp = if now >= self.moment {
                    now - self.moment
                } else {
                    0
                };
                if !rest && waited >= self.settings.delay {
                    self.moment = now;
                    if self.field.try_move(&mut block, 0, 1) {
                        changed = true;
                    } else {
                        rest = true;
                    }
                }
                self.state = if rest {
                    GameState::Drop(block, next)
                } else {
                    GameState::Fall(block, next)
                };
                changed
            },
            other => {
                self.state = other;
                false
            },
        }
    }

    /// The tick after the block came to rest: locks it, clears and pays for
    /// the rows it filled, and sets the next block above the field.
    pub fn state_drop(&mut self)
        requires
            old(self).wf(),
        ensures
            final(self)@ == old(self)@.landed(),
            final(self).wf(),
    {
        let mut state = GameState::Start;
        core::mem::swap(&mut self.state, &mut state);
        match state {
            GameState::Drop(block, next) => {
                proof {
                    lemma_consumed_is_grid(self@.grid, block@);
                }
                let lines: u32 = self.field.consume(block) as u32;
                assert(lines * (lines + 1) <= 0xffff * 0x10000) by (nonlinear_arith)
                    requires
                        lines <= 0xffff,
                ;
                self.score = self.score.saturating_add(lines * (lines + 1) / 2);
                let block = Block::spawn(next, &self.settings);
                self.run_cicle(block);
            },
            other => {
                self.state = other;
            },
        }
    }

    /// Makes `block` the falling block and draws the tetromino to come after
    /// it. The game is over if the block lies on taken cells.
    pub fn run_cicle(&mut self, block: Block)
        requires
            old(self).wf(),
            block@.upright(),
        ensures
            final(self)@ == old(self)@.cycled(block@),
            final(self).wf(),
    {
        let next = self.random_block();
        if self.field.has_collision(&block) {
            self.state = GameState::GameOver;
        } else {
            self.state = GameState::Fall(block, next);
        }
    }

    /// The menu that pauses the game.
    pub fn pause_menu() -> (menu: MenuMode<TetrisPause>)
        ensures
            menu@ == MenuView::fresh(pause_items()),
            menu@.wf(),
    {
        let items: Vec<MenuItem<TetrisPause>> = vec![
            MenuItem { id: TetrisPause::Title, string: "Menu", selectable: false },
            MenuItem { id: TetrisPause::Continue, string: "Continue", selectable: true },
            MenuItem { id: TetrisPause::Restart, string: "New Game", selectable: true },
            MenuItem { id: TetrisPause::Exit, string: "Exit", selectable: true },
        ];
        assert(items@ =~= pause_items());
        MenuMode::new(items)
    }

    /// The menu that ends the game.
    pub fn over_menu() -> (menu: MenuMode<TetrisPause>)
        ensures
            menu@ == MenuView::fresh(over_items()),
            menu@.wf(),
    {
        let items: Vec<MenuItem<TetrisPause>> = vec![
            MenuItem { id: TetrisPause::Title, string: "You Died", selectable: false },
            MenuItem { id: TetrisPause::Restart, string: "New Game", selectable: true },
            MenuItem { id: TetrisPause::Exit, string: "Exit", selectable: true },
        ];
        assert(items@ =~= over_items());
        MenuMode::new(items)
    }

    /// What there is to draw of the game itself.
    pub fn to_drawable(&self) -> (mode: GameMode)
        requires
            self.wf(),
        ensures
            mode@ == self@.picture(),
    {
        match &self.state {
            GameState::Fall(block, next) | GameState::Drop(block, next) => GameMode {
                main: self.field.field_with_block(block),
                preview: next.preview(),
                score: self.score,
            },
            GameState::Start | GameState::GameOver => {
                let preview = Renderable(vec![vec![0u8; 4]; 4]);
                assert(preview@ =~= blank(4, 4)) by {
                    assert forall|r: int| 0 <= r < 4 implies #[trigger] preview@[r] =~= blank(
                        4,
                        4,
                    )[r] by {}
                }
                GameMode { main: self.field.field(), preview, score: self.score }
            },
        }
    }
}

} // verus!

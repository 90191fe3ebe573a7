//! The geometry of the game: what it means for a piece to lie in a field, to
//! collide, to fall, to be locked, and for rows to be cleared. Everything here
//! is mathematics; [`crate::tetrisfield::TetrisField`] computes it.

use crate::settings::blank;
use crate::settings::MAX_SIDE;
use crate::settings::MIN_SIDE;
use crate::tetromino::lemma_columns_are_solid;
use crate::tetromino::lemma_turns_return;
use crate::tetromino::Direction;
use crate::tetromino::Piece;
use crate::tetromino::Tetromino;
use vstd::prelude::*;

verus! {

/// The number of columns of `grid`.
pub open spec fn width(grid: Seq<Seq<u8>>) -> int {
    grid[0].len() as int
}

/// A field is a rectangle of cells, each empty or holding one of the seven
/// colours, with sides that the settings allow.
pub open spec fn is_grid(grid: Seq<Seq<u8>>) -> bool {
    &&& MIN_SIDE <= grid.len() <= MAX_SIDE
    &&& MIN_SIDE <= width(grid) <= MAX_SIDE
    &&& forall|r: int| 0 <= r < grid.len() ==> (#[trigger] grid[r]).len() == width(grid)
    &&& forall|r: int, c: int|
        0 <= r < grid.len() && 0 <= c < width(grid) ==> #[trigger] grid[r][c] <= 7
}

/// Whether row `r`, column `c` lies in the field. With `relaxed`, the rows
/// above the field count as part of it.
pub open spec fn inside(grid: Seq<Seq<u8>>, r: int, c: int, relaxed: bool) -> bool {
    &&& relaxed || 0 <= r
    &&& r < grid.len()
    &&& 0 <= c < width(grid)
}

/// Whether row `r`, column `c` is a cell of the field that is taken.
pub open spec fn filled(grid: Seq<Seq<u8>>, r: int, c: int) -> bool {
    inside(grid, r, c, false) && grid[r][c] > 0
}

/// Whether some cell of the piece lies on a taken cell of the field.
pub open spec fn collides(grid: Seq<Seq<u8>>, piece: Piece) -> bool {
    exists|r: int, c: int| #[trigger] piece.covers(r, c) && filled(grid, r, c)
}

/// Whether some cell of the piece lies left or right of the field or below it.
pub open spec fn overflows(grid: Seq<Seq<u8>>, piece: Piece) -> bool {
    exists|r: int, c: int| #[trigger] piece.covers(r, c) && !inside(grid, r, c, true)
}

/// Whether a block can be where the piece is.
pub open spec fn fits(grid: Seq<Seq<u8>>, piece: Piece) -> bool {
    &&& piece.representable()
    &&& !overflows(grid, piece)
    &&& !collides(grid, piece)
}

/// The field with the cells of the piece that lie in it drawn in.
pub open spec fn merged(grid: Seq<Seq<u8>>, piece: Piece) -> Seq<Seq<u8>> {
    Seq::new(
        grid.len(),
        |r: int|
            Seq::new(
                grid[r].len(),
                |c: int|
                    if piece.covers(r, c) {
                        piece.cells()[r - piece.y][c - piece.x]
                    } else {
                        grid[r][c]
                    },
            ),
    )
}

/// The piece after the turn that kick `k` of its table proposes: turned once
/// and moved by the kick.
pub open spec fn kicked(piece: Piece, k: int) -> Piece {
    let kick = piece.tetromino.kicks(piece.rotation)[k];
    piece.turned().shifted(kick.0 as int, kick.1 as int)
}

/// The first kick at or after `from` in the table of the piece whose turn
/// fits, if there is one.
pub open spec fn first_fit(grid: Seq<Seq<u8>>, piece: Piece, from: int) -> Option<int>
    decreases piece.tetromino.kicks(piece.rotation).len() - from,
{
    if from >= piece.tetromino.kicks(piece.rotation).len() {
        None
    } else if 0 <= from && fits(grid, kicked(piece, from)) {
        Some(from)
    } else {
        first_fit(grid, piece, from + 1)
    }
}

/// The piece after a try to move it: moved by `dx` columns and `dy` rows if
/// it fits there, and whether it did.
pub open spec fn moved(grid: Seq<Seq<u8>>, piece: Piece, dx: int, dy: int) -> (Piece, bool) {
    if fits(grid, piece.shifted(dx, dy)) {
        (piece.shifted(dx, dy), true)
    } else {
        (piece, false)
    }
}

/// The piece after a try to turn it: turned with the first kick that fits,
/// and whether there was one.
pub open spec fn spun(grid: Seq<Seq<u8>>, piece: Piece) -> (Piece, bool) {
    match first_fit(grid, piece, 0) {
        Some(k) => (kicked(piece, k), true),
        None => (piece, false),
    }
}

/// Whether a cell that sinks into row `r`, column `c` is stopped there: by a
/// taken cell, or by the floor.
pub open spec fn blocked(grid: Seq<Seq<u8>>, r: int, c: int) -> bool {
    r >= grid.len() || filled(grid, r, c)
}

/// Whether the piece can sink `d` rows, one row at a time, without the lowest
/// cell of any of its columns being stopped.
pub open spec fn sinks(grid: Seq<Seq<u8>>, piece: Piece, d: int) -> bool {
    forall|rb: int, c: int, r: int|
        #![trigger piece.rests(rb, c), blocked(grid, r, c)]
        piece.rests(rb, c) && rb < r <= rb + d ==> !blocked(grid, r, c)
}

/// Whether `d` is how far the piece falls: it can sink `d` rows and no further.
pub open spec fn is_drop_distance(grid: Seq<Seq<u8>>, piece: Piece, d: int) -> bool {
    &&& 0 <= d
    &&& sinks(grid, piece, d)
    &&& !sinks(grid, piece, d + 1)
}

/// How far the piece falls.
pub open spec fn drop_distance(grid: Seq<Seq<u8>>, piece: Piece) -> int {
    choose|d: int| is_drop_distance(grid, piece, d)
}

/// There is one distance at most that a piece falls.
pub proof fn lemma_drop_distance(grid: Seq<Seq<u8>>, piece: Piece, d: int)
    requires
        is_drop_distance(grid, piece, d),
    ensures
        drop_distance(grid, piece) == d,
{
    let e = drop_distance(grid, piece);
    assert(is_drop_distance(grid, piece, e));
    if e < d {
        assert(sinks(grid, piece, e + 1));
    } else if d < e {
        assert(sinks(grid, piece, d + 1));
    }
}

/// The rows of the field in which the piece has a cell.
pub open spec fn touched(grid: Seq<Seq<u8>>, piece: Piece) -> Set<int> {
    Set::new(|r: int| exists|c: int| #[trigger] piece.covers(r, c) && inside(grid, r, c, false))
}

/// The rows that `lines` names.
pub open spec fn named(lines: Seq<u16>) -> Set<int> {
    Set::new(|r: int| exists|k: int| 0 <= k < lines.len() && #[trigger] lines[k] == r)
}

/// Whether `r` is a row of the field with no empty cell.
pub open spec fn full(grid: Seq<Seq<u8>>, r: int) -> bool {
    &&& 0 <= r < grid.len()
    &&& forall|c: int| 0 <= c < grid[r].len() ==> #[trigger] grid[r][c] > 0
}

/// The rows that `marks` marks.
pub open spec fn marked(marks: Seq<bool>) -> Set<int> {
    Set::new(|r: int| 0 <= r < marks.len() && marks[r])
}

/// The rows among `candidates` that are full.
pub open spec fn full_among(grid: Seq<Seq<u8>>, candidates: Set<int>) -> Set<int> {
    Set::new(|r: int| candidates.contains(r) && full(grid, r))
}

/// The first `n` rows of the field without those in `gone`, in order.
pub open spec fn survivors(grid: Seq<Seq<u8>>, gone: Set<int>, n: int) -> Seq<Seq<u8>>
    decreases n,
{
    if n <= 0 {
        Seq::empty()
    } else if gone.contains(n - 1) {
        survivors(grid, gone, n - 1)
    } else {
        survivors(grid, gone, n - 1).push(grid[n - 1])
    }
}

/// How many of the rows of the field are in `gone`.
pub open spec fn cleared_count(grid: Seq<Seq<u8>>, gone: Set<int>) -> int {
    grid.len() - survivors(grid, gone, grid.len() as int).len()
}

/// The field after the rows in `gone` are taken out: the rows above each
/// move down, and as many empty rows come in at the top.
pub open spec fn cleared(grid: Seq<Seq<u8>>, gone: Set<int>) -> Seq<Seq<u8>> {
    blank(cleared_count(grid, gone), width(grid)) + survivors(grid, gone, grid.len() as int)
}

/// No more rows survive than there are.
pub proof fn lemma_survivors(grid: Seq<Seq<u8>>, gone: Set<int>, n: int)
    requires
        0 <= n <= grid.len(),
    ensures
        survivors(grid, gone, n).len() <= n,
        forall|k: int|
            0 <= k < survivors(grid, gone, n).len() ==> exists|r: int|
                0 <= r < n && !gone.contains(r) && grid[r] == #[trigger] survivors(grid, gone, n)[k],
    decreases n,
{
    if n > 0 {
        lemma_survivors(grid, gone, n - 1);
        let rest = survivors(grid, gone, n - 1);
        let all = survivors(grid, gone, n);
        assert forall|k: int| 0 <= k < all.len() implies exists|r: int|
            0 <= r < n && !gone.contains(r) && grid[r] == #[trigger] all[k] by {
            if k < rest.len() {
                let r = choose|r: int| 0 <= r < n - 1 && !gone.contains(r) && grid[r] == rest[k];
                assert(0 <= r < n && !gone.contains(r) && grid[r] == all[k]);
            } else {
                assert(0 <= n - 1 < n && !gone.contains(n - 1) && grid[n - 1] == all[k]);
            }
        }
    }
}

/// Taking rows out of a field leaves a field of the same size.
pub proof fn lemma_cleared_is_grid(grid: Seq<Seq<u8>>, gone: Set<int>)
    requires
        is_grid(grid),
    ensures
        is_grid(cleared(grid, gone)),
        cleared(grid, gone).len() == grid.len(),
        width(cleared(grid, gone)) == width(grid),
        0 <= cleared_count(grid, gone) <= grid.len(),
{
    lemma_survivors(grid, gone, grid.len() as int);
    let kept = survivors(grid, gone, grid.len() as int);
    let count = cleared_count(grid, gone);
    let after = cleared(grid, gone);
    assert forall|r: int| 0 <= r < after.len() implies (#[trigger] after[r]).len() == width(grid)
        && forall|c: int| 0 <= c < width(grid) ==> after[r][c] <= 7 by {
        if r >= count {
            let from = choose|from: int|
                0 <= from < grid.len() && !gone.contains(from) && grid[from] == kept[r - count];
            assert(after[r] == grid[from]);
        }
    }
    assert(after[0].len() == width(grid));
}

/// Drawing a piece into a field leaves a field.
pub proof fn lemma_merged_is_grid(grid: Seq<Seq<u8>>, piece: Piece)
    requires
        is_grid(grid),
    ensures
        is_grid(merged(grid, piece)),
        merged(grid, piece).len() == grid.len(),
        width(merged(grid, piece)) == width(grid),
{
    piece.lemma_cells();
    piece.tetromino.lemma_square();
    let after = merged(grid, piece);
    assert(after[0].len() == grid[0].len());
    assert forall|r: int, c: int| 0 <= r < after.len() && 0 <= c < width(after) implies #[trigger] after[r][c] <= 7 by {
        if piece.covers(r, c) {
            assert(piece.body(r - piece.y, c - piece.x));
        }
    }
}

/// What a field becomes when a piece is locked into it, and how many rows
/// that clears: the piece is drawn in, and the rows it lies in that are full
/// with it are taken out.
pub open spec fn consumed(grid: Seq<Seq<u8>>, piece: Piece) -> (Seq<Seq<u8>>, int) {
    let locked = merged(grid, piece);
    let gone = full_among(locked, touched(grid, piece));
    (cleared(locked, gone), cleared_count(locked, gone))
}

/// The row of the lowest occupied cell of column `i` of the box at or below
/// row `j`.
pub open spec fn lowest_in(piece: Piece, j: int, i: int) -> int
    decreases piece.tetromino.side() - j,
{
    if j >= piece.tetromino.side() - 1 {
        j
    } else {
        let below = lowest_in(piece, j + 1, i);
        if piece.body(below, i) {
            below
        } else {
            j
        }
    }
}

/// Under an occupied cell of the box there is a lowest one.
pub proof fn lemma_lowest_in(piece: Piece, j: int, i: int)
    requires
        piece.body(j, i),
    ensures
        piece.bottom(lowest_in(piece, j, i), i),
        j <= lowest_in(piece, j, i),
{
    lemma_lowest_below(piece, j, i);
}

proof fn lemma_lowest_below(piece: Piece, j: int, i: int)
    requires
        0 <= j,
    ensures
        j <= lowest_in(piece, j, i),
        forall|k: int| lowest_in(piece, j, i) < k ==> !piece.body(k, i),
        lowest_in(piece, j, i) == j || piece.body(lowest_in(piece, j, i), i),
    decreases piece.tetromino.side() - j,
{
    if j < piece.tetromino.side() - 1 {
        lemma_lowest_below(piece, j + 1, i);
    }
}

/// A block that has fallen as far as it falls lies no lower than the floor
/// lets it.
pub proof fn lemma_drop_stays_above(grid: Seq<Seq<u8>>, piece: Piece, d: int)
    requires
        is_grid(grid),
        piece.representable(),
        is_drop_distance(grid, piece, d),
    ensures
        piece.shifted(0, d).representable(),
{
    piece.lemma_cells();
    let (j, i) = choose|j: int, i: int| piece.body(j, i);
    lemma_lowest_in(piece, j, i);
    let low = lowest_in(piece, j, i);
    assert(piece.rests(low + piece.y, i + piece.x));
    if d > 0 {
        assert(!blocked(grid, low + piece.y + d, i + piece.x));
    }
}

/// Locking a piece into a field leaves a field of the same size.
pub proof fn lemma_consumed_is_grid(grid: Seq<Seq<u8>>, piece: Piece)
    requires
        is_grid(grid),
    ensures
        is_grid(consumed(grid, piece).0),
        consumed(grid, piece).0.len() == grid.len(),
        width(consumed(grid, piece).0) == width(grid),
        0 <= consumed(grid, piece).1 <= grid.len(),
{
    lemma_merged_is_grid(grid, piece);
    let locked = merged(grid, piece);
    let gone = full_among(locked, touched(grid, piece));
    lemma_cleared_is_grid(locked, gone);
}

proof fn lemma_drop_search(grid: Seq<Seq<u8>>, piece: Piece, d: int, bound: int)
    requires
        0 <= d < bound,
        sinks(grid, piece, d),
        !sinks(grid, piece, bound),
    ensures
        exists|e: int| is_drop_distance(grid, piece, e),
    decreases bound - d,
{
    if sinks(grid, piece, d + 1) {
        lemma_drop_search(grid, piece, d + 1, bound);
    } else {
        assert(is_drop_distance(grid, piece, d));
    }
}

/// Every piece falls some distance: the floor stops it if nothing else does.
pub proof fn lemma_drop_exists(grid: Seq<Seq<u8>>, piece: Piece)
    ensures
        is_drop_distance(grid, piece, drop_distance(grid, piece)),
{
    piece.lemma_cells();
    let (j, i) = choose|j: int, i: int| piece.body(j, i);
    lemma_lowest_in(piece, j, i);
    let low = lowest_in(piece, j, i) + piece.y;
    let c = i + piece.x;
    assert(piece.rests(low, c));
    let bound: int = if grid.len() - low > 1 {
        grid.len() - low
    } else {
        1
    };
    assert(blocked(grid, low + bound, c));
    assert(!sinks(grid, piece, bound));
    lemma_drop_search(grid, piece, 0, bound);
}

/// The distance a piece falls is the longest free descent. A piece that lies
/// on no taken cell lies on none all the way down, and where it fits at the
/// start it fits all the way down. One row further it would lie on a taken
/// cell or reach below the field.
pub proof fn lemma_drop_is_exact(grid: Seq<Seq<u8>>, piece: Piece)
    requires
        is_grid(grid),
        !collides(grid, piece),
    ensures
        drop_distance(grid, piece) >= 0,
        forall|d: int|
            0 <= d <= drop_distance(grid, piece) ==> !collides(grid, #[trigger] piece.shifted(0, d)),
        piece.representable() && !overflows(grid, piece) ==> forall|d: int|
            0 <= d <= drop_distance(grid, piece) ==> fits(grid, #[trigger] piece.shifted(0, d)),
        collides(grid, piece.shifted(0, drop_distance(grid, piece) + 1)) || overflows(
            grid,
            piece.shifted(0, drop_distance(grid, piece) + 1),
        ),
{
    lemma_drop_exists(grid, piece);
    let far = drop_distance(grid, piece);
    assert forall|d: int| 0 <= d <= far implies !collides(grid, #[trigger] piece.shifted(0, d)) by {
        lemma_descent_is_free(grid, piece, far, d);
    }
    if piece.representable() && !overflows(grid, piece) {
        assert forall|d: int| 0 <= d <= far implies fits(grid, #[trigger] piece.shifted(0, d)) by {
            lemma_descent_is_free(grid, piece, far, d);
            lemma_descent_stays_inside(grid, piece, far, d);
        }
    }
    // Some lowest cell is stopped one row further down.
    let (rb, c, r) = choose|rb: int, c: int, r: int|
        #![trigger piece.rests(rb, c), blocked(grid, r, c)]
        piece.rests(rb, c) && rb < r <= rb + far + 1 && blocked(grid, r, c);
    assert(r == rb + far + 1) by {
        if r <= rb + far {
            assert(!blocked(grid, r, c));
        }
    }
    let below = piece.shifted(0, far + 1);
    assert(below.covers(r, c));
}

/// A piece that lies on no taken cell, and can sink `far` rows, lies on none
/// after sinking `d` of them.
proof fn lemma_descent_is_free(grid: Seq<Seq<u8>>, piece: Piece, far: int, d: int)
    requires
        !collides(grid, piece),
        sinks(grid, piece, far),
        0 <= d <= far,
    ensures
        !collides(grid, piece.shifted(0, d)),
{
    let sunk = piece.shifted(0, d);
    assert forall|r: int, c: int| #[trigger] sunk.covers(r, c) implies !filled(grid, r, c) by {
        let j = r - d - piece.y;
        let i = c - piece.x;
        assert(piece.body(j, i));
        lemma_lowest_in(piece, j, i);
        let low = lowest_in(piece, j, i);
        assert(piece.rests(low + piece.y, c));
        if j + d <= low {
            lemma_columns_are_solid(piece, j, j + d, low, i);
            assert(piece.covers(r, c));
        } else {
            assert(!blocked(grid, r, c));
        }
    }
}

/// A piece that lies in the field, and can sink `far` rows, lies in it after
/// sinking `d` of them, at a place a block can be.
proof fn lemma_descent_stays_inside(grid: Seq<Seq<u8>>, piece: Piece, far: int, d: int)
    requires
        is_grid(grid),
        piece.representable(),
        !overflows(grid, piece),
        sinks(grid, piece, far),
        0 <= d <= far,
    ensures
        !overflows(grid, piece.shifted(0, d)),
        piece.shifted(0, d).representable(),
{
    let sunk = piece.shifted(0, d);
    piece.lemma_cells();
    assert forall|r: int, c: int| #[trigger] sunk.covers(r, c) implies inside(grid, r, c, true) by {
        let j = r - d - piece.y;
        let i = c - piece.x;
        assert(piece.covers(r - d, c));
        lemma_lowest_in(piece, j, i);
        let low = lowest_in(piece, j, i);
        assert(piece.rests(low + piece.y, c));
        assert(piece.covers(low + piece.y, c));
        if d > 0 {
            assert(!blocked(grid, low + piece.y + d, c));
        }
    }
    let (j, i) = choose|j: int, i: int| piece.body(j, i);
    assert(sunk.covers(j + piece.y + d, i + piece.x));
}

/// A locked piece takes every cell of the field that it lies on and changes
/// no other; locking it again changes nothing. From then on the piece
/// collides with the field exactly if it lies in some row of it.
pub proof fn lemma_lock(grid: Seq<Seq<u8>>, piece: Piece)
    requires
        is_grid(grid),
    ensures
        forall|r: int, c: int|
            inside(grid, r, c, false) && #[trigger] piece.covers(r, c) ==> filled(
                merged(grid, piece),
                r,
                c,
            ),
        forall|r: int, c: int|
            inside(grid, r, c, false) && !piece.covers(r, c) ==> #[trigger] merged(
                grid,
                piece,
            )[r][c] == grid[r][c],
        merged(merged(grid, piece), piece) == merged(grid, piece),
        collides(merged(grid, piece), piece) <==> exists|r: int| touched(grid, piece).contains(r),
{
    lemma_merged_is_grid(grid, piece);
    let locked = merged(grid, piece);
    assert(merged(locked, piece) =~= locked) by {
        assert forall|r: int| 0 <= r < locked.len() implies #[trigger] merged(locked, piece)[r]
            =~= locked[r] by {}
    }
    if collides(locked, piece) {
        let (r, c) = choose|r: int, c: int| #[trigger] piece.covers(r, c) && filled(locked, r, c);
        assert(piece.covers(r, c) && inside(grid, r, c, false));
        assert(touched(grid, piece).contains(r));
    }
    if exists|r: int| touched(grid, piece).contains(r) {
        let r = choose|r: int| touched(grid, piece).contains(r);
        let c = choose|c: int| #[trigger] piece.covers(r, c) && inside(grid, r, c, false);
        assert(piece.covers(r, c) && filled(locked, r, c));
    }
}

/// A piece that lies on no taken cell is locked without a taken cell being
/// written over.
pub proof fn lemma_lock_keeps_taken_cells(grid: Seq<Seq<u8>>, piece: Piece)
    requires
        is_grid(grid),
        !collides(grid, piece),
    ensures
        forall|r: int, c: int|
            #![trigger merged(grid, piece)[r][c]]
            filled(grid, r, c) ==> merged(grid, piece)[r][c] == grid[r][c],
{
    assert forall|r: int, c: int|
        #![trigger merged(grid, piece)[r][c]]
        filled(grid, r, c) implies merged(grid, piece)[r][c] == grid[r][c] by {
        assert(!piece.covers(r, c));
    }
}

/// A piece that lies on no taken cell and in no row of the field is locked
/// without a trace: the field is as it was, and the piece lies on no taken
/// cell of it.
pub proof fn lemma_lock_off_field(grid: Seq<Seq<u8>>, piece: Piece)
    requires
        is_grid(grid),
        !collides(grid, piece),
        forall|r: int| !touched(grid, piece).contains(r),
    ensures
        merged(grid, piece) == grid,
        !collides(merged(grid, piece), piece),
{
    let locked = merged(grid, piece);
    assert(locked =~= grid) by {
        assert forall|r: int| 0 <= r < grid.len() implies #[trigger] locked[r] =~= grid[r] by {
            assert forall|c: int| 0 <= c < grid[r].len() implies locked[r][c] == grid[r][c] by {
                if piece.covers(r, c) {
                    assert(touched(grid, piece).contains(r));
                }
            }
        }
    }
}

/// Four turns of a tetromino with four orientations, each of them taken,
/// bring it back to the orientation it had; and if each was taken in place,
/// with the first kick of its table, back to the place it had.
pub proof fn lemma_four_turns(grid: Seq<Seq<u8>>, piece: Piece)
    requires
        piece.tetromino.arity() == Direction::Full,
    ensures
        ({
            let first = spun(grid, piece);
            let second = spun(grid, first.0);
            let third = spun(grid, second.0);
            let fourth = spun(grid, third.0);
            &&& first.1 && second.1 && third.1 && fourth.1 ==> {
                &&& fourth.0.rotation == piece.rotation
                &&& fourth.0.tetromino == piece.tetromino
            }
            &&& first_fit(grid, piece, 0) == Some(0int) && first_fit(grid, first.0, 0) == Some(0int)
                && first_fit(grid, second.0, 0) == Some(0int) && first_fit(grid, third.0, 0)
                == Some(0int) ==> fourth.0 == piece
        }),
{
    let first = spun(grid, piece);
    let second = spun(grid, first.0);
    let third = spun(grid, second.0);
    lemma_turns_return(piece.rotation);
    piece.tetromino.lemma_kicks(piece.rotation);
    first.0.tetromino.lemma_kicks(first.0.rotation);
    second.0.tetromino.lemma_kicks(second.0.rotation);
    third.0.tetromino.lemma_kicks(third.0.rotation);
}

/// A new piece lies in the field it is made for, whatever its kind, with its
/// lowest cells in the top row.
pub proof fn lemma_spawn_is_inside(grid: Seq<Seq<u8>>, tetromino: Tetromino)
    requires
        is_grid(grid),
    ensures
        !overflows(grid, Piece::spawned(tetromino, width(grid))),
        Piece::spawned(tetromino, width(grid)).representable(),
        Piece::spawned(tetromino, width(grid)).upright(),
        forall|r: int, c: int| #[trigger] Piece::spawned(tetromino, width(grid)).covers(r, c) ==> r <= 0,
{
    tetromino.lemma_square();
    let piece = Piece::spawned(tetromino, width(grid));
    assert forall|r: int, c: int| #[trigger] piece.covers(r, c) implies inside(grid, r, c, true)
        && r <= 0 by {
        assert(piece.body(r - piece.y, c - piece.x));
    }
}

/// Clearing one full row: the rows above it move down by one, an empty row
/// comes in at the top, the rows below stay, and the field keeps its size.
pub proof fn lemma_clear_one_row(grid: Seq<Seq<u8>>, candidates: Set<int>, k: int)
    requires
        is_grid(grid),
        candidates.contains(k),
        full(grid, k),
        forall|r: int| r != k ==> !full(grid, r),
    ensures
        cleared_count(grid, full_among(grid, candidates)) == 1,
        cleared(grid, full_among(grid, candidates)).len() == grid.len(),
        width(cleared(grid, full_among(grid, candidates))) == width(grid),
        cleared(grid, full_among(grid, candidates))[0] == blank(1, width(grid))[0],
        forall|r: int|
            1 <= r <= k ==> #[trigger] cleared(grid, full_among(grid, candidates))[r] == grid[r
                - 1],
        forall|r: int|
            k < r < grid.len() ==> #[trigger] cleared(grid, full_among(grid, candidates))[r]
                == grid[r],
{
    let gone = full_among(grid, candidates);
    lemma_survivors_of_one(grid, gone, k, grid.len() as int);
    lemma_cleared_is_grid(grid, gone);
}

/// The rows that survive when row `k` alone is taken out.
proof fn lemma_survivors_of_one(grid: Seq<Seq<u8>>, gone: Set<int>, k: int, n: int)
    requires
        0 <= k < grid.len(),
        0 <= n <= grid.len(),
        forall|r: int| gone.contains(r) <==> r == k,
    ensures
        n <= k ==> survivors(grid, gone, n) == grid.subrange(0, n),
        n > k ==> survivors(grid, gone, n) == grid.subrange(0, k) + grid.subrange(k + 1, n),
    decreases n,
{
    if n > 0 {
        lemma_survivors_of_one(grid, gone, k, n - 1);
        if n <= k {
            assert(survivors(grid, gone, n) =~= grid.subrange(0, n));
        } else {
            assert(survivors(grid, gone, n) =~= grid.subrange(0, k) + grid.subrange(k + 1, n));
        }
    } else {
        assert(survivors(grid, gone, n) =~= grid.subrange(0, n));
    }
}

/// The rows that are taken out are as many as are counted.
pub proof fn lemma_cleared_count(grid: Seq<Seq<u8>>, gone: Set<int>)
    requires
        forall|r: int| gone.contains(r) ==> 0 <= r < grid.len(),
    ensures
        gone.finite(),
        gone.len() == cleared_count(grid, gone),
{
    lemma_gone_before(grid, gone, grid.len() as int);
    assert(gone =~= gone.filter(|r: int| r < grid.len() as int));
}

proof fn lemma_gone_before(grid: Seq<Seq<u8>>, gone: Set<int>, n: int)
    requires
        0 <= n <= grid.len(),
        forall|r: int| gone.contains(r) ==> 0 <= r,
    ensures
        gone.filter(|r: int| r < n).finite(),
        gone.filter(|r: int| r < n).len() == n - survivors(grid, gone, n).len(),
    decreases n,
{
    let now = gone.filter(|r: int| r < n);
    if n == 0 {
        assert(now =~= Set::empty());
    } else {
        lemma_gone_before(grid, gone, n - 1);
        let before = gone.filter(|r: int| r < n - 1);
        if gone.contains(n - 1) {
            assert(now =~= before.insert(n - 1));
        } else {
            assert(now =~= before);
        }
    }
}

} // verus!

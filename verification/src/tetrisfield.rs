//! The playing field: which cells are taken, where a block may be, how far it
//! falls, and what becomes of the field when a block comes to rest.

use crate::grid::blocked;
use crate::grid::cleared;
use crate::grid::cleared_count;
use crate::grid::collides;
use crate::grid::consumed;
use crate::grid::drop_distance;
use crate::grid::filled;
use crate::grid::first_fit;
use crate::grid::fits;
use crate::grid::full;
use crate::grid::full_among;
use crate::grid::inside;
use crate::grid::is_drop_distance;
use crate::grid::is_grid;
use crate::grid::kicked;
use crate::grid::lemma_cleared_is_grid;
use crate::grid::lemma_drop_distance;
use crate::grid::lemma_drop_stays_above;
use crate::grid::lemma_lowest_in;
use crate::grid::lemma_merged_is_grid;
use crate::grid::lemma_survivors;
use crate::grid::lowest_in;
use crate::grid::marked;
use crate::grid::merged;
use crate::grid::named;
use crate::grid::overflows;
use crate::grid::survivors;
use crate::grid::touched;
use crate::grid::width;
use crate::settings::blank;
use crate::settings::Renderable;
use crate::settings::Settings;
use crate::tetromino::Block;
use vstd::prelude::*;

verus! {

/// The playing field.
pub struct TetrisField {
    field: Renderable,
}

impl View for TetrisField {
    type V = Seq<Seq<u8>>;

    closed spec fn view(&self) -> Seq<Seq<u8>> {
        self.field@
    }
}

impl TetrisField {
    /// Whether the field is one: see [`is_grid`].
    pub open spec fn wf(&self) -> bool {
        is_grid(self@)
    }

    /// An empty field of the size that `settings` gives.
    pub fn new(settings: &Settings) -> (field: TetrisField)
        requires
            settings.valid(),
        ensures
            field@ == blank(settings.rows as int, settings.cols as int),
            field.wf(),
    {
        let field = Renderable(vec![vec![0u8; settings.cols as usize]; settings.rows as usize]);
        assert(field@ =~= blank(settings.rows as int, settings.cols as int)) by {
            assert forall|r: int| 0 <= r < settings.rows implies #[trigger] field@[r] =~= blank(
                settings.rows as int,
                settings.cols as int,
            )[r] by {}
        }
        TetrisField { field }
    }

    /// A copy of the cells.
    pub fn field(&self) -> (cells: Renderable)
        ensures
            cells@ == self@,
    {
        self.field.clone()
    }

    fn rows(&self) -> (rows: i32)
        requires
            self.wf(),
        ensures
            rows == self@.len(),
    {
        self.field.0.len() as i32
    }

    fn cols(&self) -> (cols: i32)
        requires
            self.wf(),
        ensures
            cols == width(self@),
    {
        assert(self@[0] == self.field.0@[0]@);
        self.field.0[0].len() as i32
    }

    /// Whether column `x`, row `y` lies in the field, for coordinates of any
    /// size that a block and a cell of its box add up to.
    fn holds(&self, x: i32, y: i32, relaxed: bool) -> (within: bool)
        requires
            self.wf(),
        ensures
            within == inside(self@, y as int, x as int, relaxed),
    {
        (relaxed || 0 <= y) && y < self.rows() && 0 <= x && x < self.cols()
    }

    /// Whether column `x`, row `y` is a cell of the field that is taken.
    fn taken(&self, x: i32, y: i32) -> (taken: bool)
        requires
            self.wf(),
        ensures
            taken == filled(self@, y as int, x as int),
    {
        if self.holds(x, y, false) {
            assert(self@[y as int] == self.field.0@[y as int]@);
            self.field.0[y as usize][x as usize] > 0
        } else {
            false
        }
    }

    /// Whether column `x`, row `y` lies in the field. With `relaxed`, the rows
    /// above the field count as part of it.
    pub fn in_bounds(&self, x: i16, y: i16, relaxed: bool) -> (within: bool)
        requires
            self.wf(),
        ensures
            within == inside(self@, y as int, x as int, relaxed),
    {
        self.holds(x as i32, y as i32, relaxed)
    }

    /// The field with the block drawn in.
    pub fn field_with_block(&self, block: &Block) -> (cells: Renderable)
        requires
            self.wf(),
        ensures
            cells@ == merged(self@, block@),
    {
        let mut field = self.field.clone();
        let shape = block.shape();
        proof {
            block@.lemma_cells();
            block.tetromino.lemma_square();
        }
        let n: usize = shape.0.len();
        let ghost piece = block@;
        let mut j: usize = 0;
        while j < n
            invariant
                j <= n,
                self.wf(),
                piece == block@,
                shape@ == piece.cells(),
                shape.0@.len() == n,
                n == piece.tetromino.side(),
                2 <= n <= 4,
                forall|k: int| 0 <= k < n ==> (#[trigger] piece.cells()[k]).len() == n,
                field@.len() == self@.len(),
                forall|r: int| 0 <= r < self@.len() ==> (#[trigger] field@[r]).len() == width(self@),
                forall|r: int, c: int|
                    0 <= r < self@.len() && 0 <= c < width(self@) ==> #[trigger] field@[r][c] == (
                    if piece.covers(r, c) && r - piece.y < j {
                        piece.cells()[r - piece.y][c - piece.x]
                    } else {
                        self@[r][c]
                    }),
            decreases n - j,
        {
            let mut i: usize = 0;
            while i < n
                invariant
                    i <= n,
                    j < n,
                    self.wf(),
                    piece == block@,
                    shape@ == piece.cells(),
                    shape.0@.len() == n,
                shape.0@.len() == n,
                    n == piece.tetromino.side(),
                    2 <= n <= 4,
                    forall|k: int| 0 <= k < n ==> (#[trigger] piece.cells()[k]).len() == n,
                    field@.len() == self@.len(),
                    forall|r: int|
                        0 <= r < self@.len() ==> (#[trigger] field@[r]).len() == width(self@),
                    forall|r: int, c: int|
                        0 <= r < self@.len() && 0 <= c < width(self@) ==> #[trigger] field@[r][c]
                            == (if piece.covers(r, c) && (r - piece.y < j || (r - piece.y == j && c
                            - piece.x < i)) {
                            piece.cells()[r - piece.y][c - piece.x]
                        } else {
                            self@[r][c]
                        }),
                decreases n - i,
            {
                assert(shape@[j as int] == shape.0@[j as int]@);
                let cell: u8 = shape.0[j][i];
                let x: i32 = block.x as i32 + i as i32;
                let y: i32 = block.y as i32 + j as i32;
                if cell > 0 && self.holds(x, y, false) {
                    let ghost before = field@;
                    assert(before[y as int] == field.0@[y as int]@);
                    field.0[y as usize][x as usize] = cell;
                    assert(field@ =~= before.update(y as int, before[y as int].update(x as int, cell)));
                }
                i += 1;
            }
            j += 1;
        }
        assert(field@ =~= merged(self@, piece)) by {
            assert forall|r: int| 0 <= r < self@.len() implies #[trigger] field@[r] =~= merged(
                self@,
                piece,
            )[r] by {}
        }
        field
    }

    /// Whether some cell of the block lies on a taken cell of the field.
    pub fn has_collision(&self, block: &Block) -> (hit: bool)
        requires
            self.wf(),
        ensures
            hit == collides(self@, block@),
    {
        let shape = block.shape();
        proof {
            block@.lemma_cells();
            block.tetromino.lemma_square();
        }
        let n: usize = shape.0.len();
        let ghost piece = block@;
        let mut j: usize = 0;
        while j < n
            invariant
                j <= n,
                self.wf(),
                piece == block@,
                shape@ == piece.cells(),
                shape.0@.len() == n,
                n == piece.tetromino.side(),
                2 <= n <= 4,
                forall|k: int| 0 <= k < n ==> (#[trigger] piece.cells()[k]).len() == n,
                forall|r: int, c: int|
                    #[trigger] piece.covers(r, c) && r - piece.y < j ==> !filled(self@, r, c),
            decreases n - j,
        {
            let mut i: usize = 0;
            while i < n
                invariant
                    i <= n,
                    j < n,
                    self.wf(),
                    piece == block@,
                    shape@ == piece.cells(),
                    shape.0@.len() == n,
                shape.0@.len() == n,
                    n == piece.tetromino.side(),
                    2 <= n <= 4,
                    forall|k: int| 0 <= k < n ==> (#[trigger] piece.cells()[k]).len() == n,
                    forall|r: int, c: int|
                        #[trigger] piece.covers(r, c) && (r - piece.y < j || (r - piece.y == j && c
                            - piece.x < i)) ==> !filled(self@, r, c),
                decreases n - i,
            {
                assert(shape@[j as int] == shape.0@[j as int]@);
                let x: i32 = block.x as i32 + i as i32;
                let y: i32 = block.y as i32 + j as i32;
                if shape.0[j][i] > 0 && self.taken(x, y) {
                    assert(piece.covers(y as int, x as int));
                    return true;
                }
                i += 1;
            }
            j += 1;
        }
        false
    }

    /// Whether some cell of the block lies left or right of the field or
    /// below it.
    pub fn has_overflow(&self, block: &Block) -> (out: bool)
        requires
            self.wf(),
        ensures
            out == overflows(self@, block@),
    {
        let shape = block.shape();
        proof {
            block@.lemma_cells();
            block.tetromino.lemma_square();
        }
        let n: usize = shape.0.len();
        let ghost piece = block@;
        let mut j: usize = 0;
        while j < n
            invariant
                j <= n,
                self.wf(),
                piece == block@,
                shape@ == piece.cells(),
                shape.0@.len() == n,
                n == piece.tetromino.side(),
                2 <= n <= 4,
                forall|k: int| 0 <= k < n ==> (#[trigger] piece.cells()[k]).len() == n,
                forall|r: int, c: int|
                    #[trigger] piece.covers(r, c) && r - piece.y < j ==> inside(self@, r, c, true),
            decreases n - j,
        {
            let mut i: usize = 0;
            while i < n
                invariant
                    i <= n,
                    j < n,
                    self.wf(),
                    piece == block@,
                    shape@ == piece.cells(),
                    shape.0@.len() == n,
                shape.0@.len() == n,
                    n == piece.tetromino.side(),
                    2 <= n <= 4,
                    forall|k: int| 0 <= k < n ==> (#[trigger] piece.cells()[k]).len() == n,
                    forall|r: int, c: int|
                        #[trigger] piece.covers(r, c) && (r - piece.y < j || (r - piece.y == j && c
                            - piece.x < i)) ==> inside(self@, r, c, true),
                decreases n - i,
            {
                assert(shape@[j as int] == shape.0@[j as int]@);
                let x: i32 = block.x as i32 + i as i32;
                let y: i32 = block.y as i32 + j as i32;
                if shape.0[j][i] > 0 && !self.holds(x, y, true) {
                    assert(piece.covers(y as int, x as int));
                    return true;
                }
                i += 1;
            }
            j += 1;
        }
        false
    }

    /// Moves the block by `x` columns and `y` rows if it fits there, and
    /// leaves it where it is if not.
    pub fn try_move(&self, block: &mut Block, x: i16, y: i16) -> (ok: bool)
        requires
            self.wf(),
        ensures
            ok == fits(self@, old(block)@.shifted(x as int, y as int)),
            final(block)@ == if ok {
                old(block)@.shifted(x as int, y as int)
            } else {
                old(block)@
            },
            final(block).saved is None,
    {
        let to_x: i32 = block.x as i32 + x as i32;
        let to_y: i32 = block.y as i32 + y as i32;
        if to_x < i16::MIN as i32 || to_x > i16::MAX as i32 || to_y < i16::MIN as i32 || to_y
            > i16::MAX as i32 {
            block.commit();
            return false;
        }
        block.begin(to_x as i16, to_y as i16, block.rotation);
        let ok = !self.has_overflow(block) && !self.has_collision(block);
        block.end(ok);
        ok
    }

    /// Turns the block once. The kicks of its kind are tried in order, and the
    /// first with which the turned block fits is taken; if there is none the
    /// block stays as it is.
    pub fn try_rotate(&self, block: &mut Block) -> (ok: bool)
        requires
            self.wf(),
            old(block)@.upright(),
        ensures
            match first_fit(self@, old(block)@, 0) {
                Some(k) => ok && final(block)@ == kicked(old(block)@, k),
                None => !ok && final(block)@ == old(block)@,
            },
            final(block)@.upright(),
            final(block).saved is None,
    {
        let kicks = block.tetromino.wallkick(block.rotation);
        let ghost start = block@;
        proof {
            start.tetromino.lemma_kicks(start.rotation);
        }
        let mut k: usize = 0;
        while k < kicks.len()
            invariant
                k <= kicks@.len(),
                self.wf(),
                block@ == start,
                start == old(block)@,
                start.upright(),
                kicks@ == start.tetromino.kicks(start.rotation),
                first_fit(self@, start, 0) == first_fit(self@, start, k as int),
                k > 0 ==> block.saved is None,
            decreases kicks@.len() - k,
        {
            let (x, y) = kicks[k];
            let to_x: i32 = block.x as i32 + x as i32;
            let to_y: i32 = block.y as i32 + y as i32;
            if to_x < i16::MIN as i32 || to_x > i16::MAX as i32 || to_y < i16::MIN as i32 || to_y
                > i16::MAX as i32 {
                block.commit();
            } else {
                block.begin(to_x as i16, to_y as i16, block.rotation.next(block.tetromino.dir()));
                assert(block@ == kicked(start, k as int));
                let ok = !self.has_overflow(block) && !self.has_collision(block);
                block.end(ok);
                if ok {
                    assert(fits(self@, kicked(start, k as int)));
                    assert(first_fit(self@, start, k as int) == Some(k as int));
                    return ok;
                }
            }
            k += 1;
        }
        false
    }

    /// Whether a cell that sinks into column `x`, row `y` is stopped there.
    fn stops(&self, x: i32, y: i32) -> (stopped: bool)
        requires
            self.wf(),
        ensures
            stopped == blocked(self@, y as int, x as int),
    {
        y >= self.rows() || self.taken(x, y)
    }

    /// How far the block falls: the least, over the columns of the block, of
    /// the number of free rows under the lowest cell of the column.
    pub fn altitude(&self, block: &Block) -> (distance: i32)
        requires
            self.wf(),
        ensures
            is_drop_distance(self@, block@, distance as int),
            distance == drop_distance(self@, block@),
    {
        let shape = block.shape();
        proof {
            block@.lemma_cells();
            block.tetromino.lemma_square();
        }
        let n: usize = shape.0.len();
        let rows: i32 = self.rows();
        let ghost piece = block@;
        let mut altitude: Option<i32> = None;
        let mut i: usize = 0;
        while i < n
            invariant
                i <= n,
                self.wf(),
                rows == self@.len(),
                piece == block@,
                shape@ == piece.cells(),
                shape.0@.len() == n,
                n == piece.tetromino.side(),
                2 <= n <= 4,
                forall|k: int| 0 <= k < n ==> (#[trigger] piece.cells()[k]).len() == n,
                match altitude {
                    None => forall|rb: int, c: int| #[trigger] piece.rests(rb, c) ==> c - piece.x >= i,
                    Some(d) => {
                        &&& 0 <= d <= 0x10000
                        &&& forall|rb: int, c: int, r: int|
                            #![trigger piece.rests(rb, c), blocked(self@, r, c)]
                            piece.rests(rb, c) && c - piece.x < i && rb < r <= rb + d ==> !blocked(
                                self@,
                                r,
                                c,
                            )
                        &&& exists|rb: int, c: int|
                            #[trigger] piece.rests(rb, c) && blocked(self@, rb + d + 1, c)
                    },
                },
            decreases n - i,
        {
            let mut lowest: Option<usize> = None;
            let mut j: usize = 0;
            while j < n
                invariant
                    j <= n,
                    i < n,
                    shape@ == piece.cells(),
                    shape.0@.len() == n,
                    n == piece.tetromino.side(),
                    forall|k: int| 0 <= k < n ==> (#[trigger] piece.cells()[k]).len() == n,
                    match lowest {
                        None => forall|k: int| 0 <= k < j ==> !piece.body(k, i as int),
                        Some(l) => {
                            &&& l < j
                            &&& piece.body(l as int, i as int)
                            &&& forall|k: int| l < k < j ==> !piece.body(k, i as int)
                        },
                    },
                decreases n - j,
            {
                assert(shape@[j as int] == shape.0@[j as int]@);
                if shape.0[j][i] > 0 {
                    lowest = Some(j);
                }
                j += 1;
            }
            if let Some(l) = lowest {
                let bottom: i32 = block.y as i32 + l as i32;
                let x: i32 = block.x as i32 + i as i32;
                assert(piece.rests(bottom as int, x as int));
                let mut y: i32 = if bottom + 1 > 0 { bottom + 1 } else { 0 };
                while !self.stops(x, y)
                    invariant
                        self.wf(),
                        rows == self@.len(),
                        bottom < y,
                        y <= rows || y == bottom + 1,
                        forall|r: int| bottom < r < y ==> !blocked(self@, r, x as int),
                    decreases rows - y,
                {
                    y += 1;
                }
                let gap: i32 = y - bottom - 1;
                altitude = match altitude {
                    Some(d) if d <= gap => Some(d),
                    _ => Some(gap),
                };
                assert forall|rb: int, c: int, r: int|
                    #![trigger piece.rests(rb, c), blocked(self@, r, c)]
                    piece.rests(rb, c) && c - piece.x < i + 1 && rb < r <= rb + altitude->0
                    implies !blocked(self@, r, c) by {
                    if c - piece.x == i {
                        assert(piece.body(rb - piece.y, i as int));
                        assert(piece.body(l as int, i as int));
                        assert(rb == bottom);
                    }
                }
            } else {
                assert forall|rb: int, c: int| #[trigger] piece.rests(rb, c) && c - piece.x == i
                    implies false by {
                    assert(piece.body(rb - piece.y, i as int));
                }
            }
            i += 1;
        }
        match altitude {
            Some(distance) => {
                proof {
                    lemma_drop_distance(self@, piece, distance as int);
                }
                distance
            },
            None => {
                // No shape is empty, so some column had a lowest cell.
                proof {
                    let (j, i) = choose|j: int, i: int| piece.body(j, i);
                    lemma_lowest_in(piece, j, i);
                    let low = lowest_in(piece, j, i);
                    assert(piece.rests(low + piece.y, i + piece.x));
                }
                0
            },
        }
    }

    /// Lets the block fall as far as it falls, and says how far that was.
    pub fn drop(&self, block: &mut Block) -> (distance: i32)
        requires
            self.wf(),
        ensures
            distance == drop_distance(self@, old(block)@),
            is_drop_distance(self@, old(block)@, distance as int),
            final(block)@ == old(block)@.shifted(0, distance as int),
            final(block).saved == old(block).saved,
    {
        let altitude = self.altitude(block);
        proof {
            lemma_drop_stays_above(self@, block@, altitude as int);
        }
        block.y = (block.y as i32 + altitude) as i16;
        altitude
    }

    /// Whether row `line` has no empty cell.
    fn is_full(&self, line: usize) -> (whole: bool)
        requires
            self.wf(),
            line < self@.len(),
        ensures
            whole == full(self@, line as int),
    {
        assert(self@[line as int] == self.field.0@[line as int]@);
        let mut i: usize = 0;
        while i < self.field.0[line].len()
            invariant
                line < self.field.0@.len(),
                self@[line as int] == self.field.0@[line as int]@,
                forall|c: int| 0 <= c < i ==> #[trigger] self@[line as int][c] > 0,
            decreases self.field.0@[line as int]@.len() - i,
        {
            if self.field.0[line][i] == 0 {
                return false;
            }
            i += 1;
        }
        true
    }

    /// Writes the cells of the block that lie in the field into it, and
    /// gives the rows written to, from the top down and each once.
    pub fn lock(&mut self, block: &Block) -> (lines: Vec<u16>)
        requires
            old(self).wf(),
        ensures
            final(self)@ == merged(old(self)@, block@),
            final(self).wf(),
            named(lines@) == touched(old(self)@, block@),
            forall|a: int, b: int| 0 <= a < b < lines@.len() ==> lines@[a] < lines@[b],
            lines@.len() <= 4,
    {
        let shape = block.shape();
        proof {
            block@.lemma_cells();
            block.tetromino.lemma_square();
            lemma_merged_is_grid(self@, block@);
        }
        let n: usize = shape.0.len();
        let ghost piece = block@;
        let ghost grid = self@;
        let mut lines: Vec<u16> = Vec::new();
        let mut j: usize = 0;
        while j < n
            invariant
                j <= n,
                is_grid(grid),
                piece == block@,
                shape@ == piece.cells(),
                shape.0@.len() == n,
                n == piece.tetromino.side(),
                2 <= n <= 4,
                forall|k: int| 0 <= k < n ==> (#[trigger] piece.cells()[k]).len() == n,
                self@.len() == grid.len(),
                forall|r: int| 0 <= r < grid.len() ==> (#[trigger] self@[r]).len() == width(grid),
                forall|r: int, c: int|
                    0 <= r < grid.len() && 0 <= c < width(grid) ==> #[trigger] self@[r][c] == (
                    if piece.covers(r, c) && r - piece.y < j {
                        piece.cells()[r - piece.y][c - piece.x]
                    } else {
                        grid[r][c]
                    }),
                lines@.len() <= j,
                forall|k: int| 0 <= k < lines@.len() ==> #[trigger] lines@[k] - piece.y < j,
                forall|a: int, b: int| 0 <= a < b < lines@.len() ==> lines@[a] < lines@[b],
                forall|r: int|
                    #[trigger] named(lines@).contains(r) <==> touched(grid, piece).contains(r) && r
                        - piece.y < j,
            decreases n - j,
        {
            let y: i32 = block.y as i32 + j as i32;
            let mut written: bool = false;
            let mut i: usize = 0;
            while i < n
                invariant
                    i <= n,
                    j < n,
                    y == piece.y + j,
                    is_grid(grid),
                    piece == block@,
                    shape@ == piece.cells(),
                    shape.0@.len() == n,
                    n == piece.tetromino.side(),
                    2 <= n <= 4,
                    forall|k: int| 0 <= k < n ==> (#[trigger] piece.cells()[k]).len() == n,
                    self@.len() == grid.len(),
                    forall|r: int|
                        0 <= r < grid.len() ==> (#[trigger] self@[r]).len() == width(grid),
                    forall|r: int, c: int|
                        0 <= r < grid.len() && 0 <= c < width(grid) ==> #[trigger] self@[r][c]
                            == (if piece.covers(r, c) && (r - piece.y < j || (r - piece.y == j && c
                            - piece.x < i)) {
                            piece.cells()[r - piece.y][c - piece.x]
                        } else {
                            grid[r][c]
                        }),
                    written <==> exists|c: int|
                        #[trigger] piece.covers(y as int, c) && inside(grid, y as int, c, false)
                            && c - piece.x < i,
                decreases n - i,
            {
                assert(shape@[j as int] == shape.0@[j as int]@);
                let cell: u8 = shape.0[j][i];
                let x: i32 = block.x as i32 + i as i32;
                assert(self.wf());
                if cell > 0 && self.holds(x, y, false) {
                    let ghost before = self@;
                    assert(before[y as int] == self.field.0@[y as int]@);
                    self.field.0[y as usize][x as usize] = cell;
                    assert(self@ =~= before.update(y as int, before[y as int].update(x as int, cell)));
                    assert(piece.covers(y as int, x as int));
                    written = true;
                }
                i += 1;
            }
            if written {
                let ghost earlier = lines@;
                lines.push(y as u16);
                assert(earlier == lines@.drop_last());
                assert forall|r: int| #[trigger]
                    named(lines@).contains(r) <==> touched(grid, piece).contains(r) && r - piece.y
                        < j + 1 by {
                    if named(lines@).contains(r) {
                        let k = choose|k: int| 0 <= k < lines@.len() && lines@[k] == r;
                        if k < earlier.len() {
                            assert(earlier[k] == r);
                            assert(named(earlier).contains(r));
                        }
                    }
                    if touched(grid, piece).contains(r) && r - piece.y < j + 1 {
                        if r - piece.y < j {
                            assert(named(earlier).contains(r));
                            let k = choose|k: int| 0 <= k < earlier.len() && earlier[k] == r;
                            assert(lines@[k] == r);
                        } else {
                            assert(lines@[lines@.len() - 1] == r);
                        }
                    }
                }
            } else {
                assert forall|r: int| #[trigger]
                    named(lines@).contains(r) <==> touched(grid, piece).contains(r) && r - piece.y
                        < j + 1 by {
                    if touched(grid, piece).contains(r) && r - piece.y == j {
                        let c = choose|c: int| #[trigger]
                            piece.covers(r, c) && inside(grid, r, c, false);
                        assert(c - piece.x < n);
                    }
                }
            }
            j += 1;
        }
        assert(self@ =~= merged(grid, piece)) by {
            assert forall|r: int| 0 <= r < grid.len() implies #[trigger] self@[r] =~= merged(
                grid,
                piece,
            )[r] by {}
        }
        assert(named(lines@) =~= touched(grid, piece)) by {
            assert forall|r: int| touched(grid, piece).contains(r) implies r - piece.y < n by {
                let c = choose|c: int| #[trigger] piece.covers(r, c) && inside(grid, r, c, false);
            }
        }
        lines
    }

    /// Marks the rows of the field that `lines` names and that are full.
    fn mark_full(&self, lines: &Vec<u16>) -> (marks: Vec<bool>)
        requires
            self.wf(),
        ensures
            marks@.len() == self@.len(),
            marked(marks@) == full_among(self@, named(lines@)),
    {
        let rows: usize = self.field.0.len();
        let mut marks: Vec<bool> = vec![false; rows];
        let mut k: usize = 0;
        while k < lines.len()
            invariant
                k <= lines@.len(),
                self.wf(),
                rows == self@.len(),
                marks@.len() == rows,
                forall|r: int|
                    0 <= r < rows ==> (#[trigger] marks@[r] <==> full(self@, r) && exists|at: int|
                        0 <= at < k && #[trigger] lines@[at] == r),
            decreases lines@.len() - k,
        {
            let line: usize = lines[k] as usize;
            let ghost before = marks@;
            if line < rows && self.is_full(line) {
                marks.set(line, true);
            }
            assert forall|r: int| 0 <= r < rows implies (#[trigger] marks@[r] <==> full(self@, r)
                && exists|at: int| 0 <= at < k + 1 && #[trigger] lines@[at] == r) by {
                if marks@[r] {
                    if before[r] {
                        let at = choose|at: int| 0 <= at < k && #[trigger] lines@[at] == r;
                        assert(0 <= at < k + 1 && lines@[at] == r);
                    } else {
                        assert(lines@[k as int] == r);
                    }
                }
            }
            k += 1;
        }
        assert(marked(marks@) =~= full_among(self@, named(lines@)));
        marks
    }

    /// Takes the marked rows out of the field and says how many they were:
    /// from the top down, each is removed and an empty row put in at the top.
    fn take_out(&mut self, marks: &Vec<bool>) -> (count: u16)
        requires
            old(self).wf(),
            marks@.len() == old(self)@.len(),
        ensures
            final(self)@ == cleared(old(self)@, marked(marks@)),
            count == cleared_count(old(self)@, marked(marks@)),
            final(self).wf(),
    {
        let rows: usize = self.field.0.len();
        assert(self@[0] == self.field.0@[0]@);
        let cols: usize = self.field.0[0].len();
        let ghost grid = self@;
        let ghost gone = marked(marks@);
        let mut count: u16 = 0;
        let mut r: usize = 0;
        assert(self@ =~= blank(0, width(grid)) + survivors(grid, gone, 0) + grid.subrange(
            0,
            rows as int,
        ));
        while r < rows
            invariant
                r <= rows,
                is_grid(grid),
                rows == grid.len(),
                cols == width(grid),
                marks@.len() == rows,
                gone == marked(marks@),
                count == r - survivors(grid, gone, r as int).len(),
                0 <= count <= r,
                self@.len() == rows,
                self@ == blank(count as int, width(grid)) + survivors(grid, gone, r as int)
                    + grid.subrange(r as int, rows as int),
            decreases rows - r,
        {
            proof {
                lemma_survivors(grid, gone, r as int);
                lemma_survivors(grid, gone, r + 1);
            }
            let ghost before = self@;
            if marks[r] {
                self.field.0.remove(r);
                assert(self@ =~= before.remove(r as int));
                let empty: Vec<u8> = vec![0u8; cols];
                assert(empty@ =~= Seq::new(cols as nat, |c: int| 0u8));
                self.field.0.insert(0, empty);
                assert(self@ =~= before.remove(r as int).insert(0, Seq::new(cols as nat, |c: int| 0u8)));
                count += 1;
            }
            assert(self@ =~= blank(count as int, width(grid)) + survivors(grid, gone, r + 1)
                + grid.subrange(r + 1, rows as int));
            r += 1;
        }
        proof {
            lemma_cleared_is_grid(grid, gone);
            assert(self@ =~= cleared(grid, gone));
        }
        count
    }

    /// Takes the full rows among `lines` out of the field and says how many
    /// they were. A line that is not a row of the field is passed over.
    pub fn check_filled(&mut self, lines: Vec<u16>) -> (count: u16)
        requires
            old(self).wf(),
        ensures
            final(self)@ == cleared(old(self)@, full_among(old(self)@, named(lines@))),
            count == cleared_count(old(self)@, full_among(old(self)@, named(lines@))),
            final(self).wf(),
    {
        let marks = self.mark_full(&lines);
        self.take_out(&marks)
    }

    /// Locks the block into the field, takes out the rows that this made
    /// full, and says how many they were.
    pub fn consume(&mut self, block: Block) -> (count: u16)
        requires
            old(self).wf(),
        ensures
            final(self)@ == consumed(old(self)@, block@).0,
            count == consumed(old(self)@, block@).1,
            final(self).wf(),
    {
        let lines = self.lock(&block);
        self.check_filled(lines)
    }
}

} // verus!

//! The seven tetrominoes, their rotations and wall kicks, and the falling block.

use crate::settings::Renderable;
use crate::settings::Settings;
use vstd::prelude::*;

verus! {

/// How far a tetromino turns before it looks the same again.
#[derive(Clone, Copy, Debug, PartialEq, Eq, Structural)]
pub enum Direction {
    /// It never turns.
    Fixed,
    /// It has two orientations.
    Half,
    /// It has four orientations.
    Full,
}

/// The orientation of a block.
#[derive(Clone, Copy, Debug, PartialEq, Eq, Structural)]
pub enum Rotation {
    Default,
    CW,
    Reverse,
    CCW,
}

/// Whether a tetromino that turns as `dir` says is ever in orientation `rotation`.
pub open spec fn allows(dir: Direction, rotation: Rotation) -> bool {
    match dir {
        Direction::Fixed => rotation is Default,
        Direction::Half => rotation is Default || rotation is CCW,
        Direction::Full => true,
    }
}

impl Rotation {
    /// The orientation after one turn.
    pub open spec fn turned(self, dir: Direction) -> Rotation {
        match dir {
            Direction::Fixed => self,
            Direction::Half => match self {
                Rotation::Default => Rotation::CCW,
                _ => Rotation::Default,
            },
            Direction::Full => match self {
                Rotation::Default => Rotation::CW,
                Rotation::CW => Rotation::Reverse,
                Rotation::Reverse => Rotation::CCW,
                Rotation::CCW => Rotation::Default,
            },
        }
    }

    /// The orientation after one turn.
    pub fn next(self, dir: Direction) -> (after: Rotation)
        requires
            allows(dir, self),
        ensures
            after == self.turned(dir),
            allows(dir, after),
    {
        match dir {
            Direction::Fixed => Rotation::Default,
            Direction::Half => match self {
                Rotation::Default => Rotation::CCW,
                _ => Rotation::Default,
            },
            Direction::Full => match self {
                Rotation::Default => Rotation::CW,
                Rotation::CW => Rotation::Reverse,
                Rotation::Reverse => Rotation::CCW,
                Rotation::CCW => Rotation::Default,
            },
        }
    }
}

/// Four quarter turns bring a tetromino with four orientations back to where
/// it started, and two half turns one with two.
pub proof fn lemma_turns_return(rotation: Rotation)
    ensures
        rotation.turned(Direction::Full).turned(Direction::Full).turned(Direction::Full).turned(
            Direction::Full,
        ) == rotation,
        allows(Direction::Half, rotation) ==> rotation.turned(Direction::Half).turned(
            Direction::Half,
        ) == rotation,
        rotation.turned(Direction::Fixed) == rotation,
{
}

/// The rows of a matrix given as slices.
pub open spec fn matrix_of(rows: &[&[u8]]) -> Seq<Seq<u8>> {
    Seq::new(rows@.len(), |r: int| rows@[r]@)
}

/// The shape of one kind of tetromino in its default orientation: a square
/// matrix whose occupied cells hold the colour of the kind.
pub trait Figure {
    spec fn cells() -> Seq<Seq<u8>>;

    fn shape() -> (rows: &'static [&'static [u8]])
        ensures
            matrix_of(rows) == Self::cells(),
    ;
}

#[derive(Clone, Copy, Debug, PartialEq, Eq, Structural)]
pub struct I();

#[derive(Clone, Copy, Debug, PartialEq, Eq, Structural)]
pub struct T();

#[derive(Clone, Copy, Debug, PartialEq, Eq, Structural)]
pub struct J();

#[derive(Clone, Copy, Debug, PartialEq, Eq, Structural)]
pub struct L();

#[derive(Clone, Copy, Debug, PartialEq, Eq, Structural)]
pub struct S();

#[derive(Clone, Copy, Debug, PartialEq, Eq, Structural)]
pub struct Z();

#[derive(Clone, Copy, Debug, PartialEq, Eq, Structural)]
pub struct O();

impl Figure for I {
    open spec fn cells() -> Seq<Seq<u8>> {
        seq![
            seq![0u8, 0u8, 0u8, 0u8],
            seq![1u8, 1u8, 1u8, 1u8],
            seq![0u8, 0u8, 0u8, 0u8],
            seq![0u8, 0u8, 0u8, 0u8],
        ]
    }

    fn shape() -> (rows: &'static [&'static [u8]]) {
        let rows: &'static [&'static [u8]] = &[
            &[0, 0, 0, 0],
            &[1, 1, 1, 1],
            &[0, 0, 0, 0],
            &[0, 0, 0, 0],
        ];
        proof {
            let cells = Self::cells();
            assert(rows@[0]@ =~= cells[0]);
            assert(rows@[1]@ =~= cells[1]);
            assert(rows@[2]@ =~= cells[2]);
            assert(rows@[3]@ =~= cells[3]);
            assert(matrix_of(rows) =~= cells);
        }
        rows
    }
}

impl Figure for T {
    open spec fn cells() -> Seq<Seq<u8>> {
        seq![seq![0u8, 2u8, 0u8], seq![2u8, 2u8, 2u8], seq![0u8, 0u8, 0u8]]
    }

    fn shape() -> (rows: &'static [&'static [u8]]) {
        let rows: &'static [&'static [u8]] = &[&[0, 2, 0], &[2, 2, 2], &[0, 0, 0]];
        proof {
            let cells = Self::cells();
            assert(rows@[0]@ =~= cells[0]);
            assert(rows@[1]@ =~= cells[1]);
            assert(rows@[2]@ =~= cells[2]);
            assert(matrix_of(rows) =~= cells);
        }
        rows
    }
}

impl Figure for J {
    open spec fn cells() -> Seq<Seq<u8>> {
        seq![seq![3u8, 0u8, 0u8], seq![3u8, 3u8, 3u8], seq![0u8, 0u8, 0u8]]
    }

    fn shape() -> (rows: &'static [&'static [u8]]) {
        let rows: &'static [&'static [u8]] = &[&[3, 0, 0], &[3, 3, 3], &[0, 0, 0]];
        proof {
            let cells = Self::cells();
            assert(rows@[0]@ =~= cells[0]);
            assert(rows@[1]@ =~= cells[1]);
            assert(rows@[2]@ =~= cells[2]);
            assert(matrix_of(rows) =~= cells);
        }
        rows
    }
}

impl Figure for L {
    open spec fn cells() -> Seq<Seq<u8>> {
        seq![seq![0u8, 0u8, 4u8], seq![4u8, 4u8, 4u8], seq![0u8, 0u8, 0u8]]
    }

    fn shape() -> (rows: &'static [&'static [u8]]) {
        let rows: &'static [&'static [u8]] = &[&[0, 0, 4], &[4, 4, 4], &[0, 0, 0]];
        proof {
            let cells = Self::cells();
            assert(rows@[0]@ =~= cells[0]);
            assert(rows@[1]@ =~= cells[1]);
            assert(rows@[2]@ =~= cells[2]);
            assert(matrix_of(rows) =~= cells);
        }
        rows
    }
}

impl Figure for S {
    open spec fn cells() -> Seq<Seq<u8>> {
        seq![seq![0u8, 5u8, 5u8], seq![5u8, 5u8, 0u8], seq![0u8, 0u8, 0u8]]
    }

    fn shape() -> (rows: &'static [&'static [u8]]) {
        let rows: &'static [&'static [u8]] = &[&[0, 5, 5], &[5, 5, 0], &[0, 0, 0]];
        proof {
            let cells = Self::cells();
            assert(rows@[0]@ =~= cells[0]);
            assert(rows@[1]@ =~= cells[1]);
            assert(rows@[2]@ =~= cells[2]);
            assert(matrix_of(rows) =~= cells);
        }
        rows
    }
}

impl Figure for Z {
    open spec fn cells() -> Seq<Seq<u8>> {
        seq![seq![6u8, 6u8, 0u8], seq![0u8, 6u8, 6u8], seq![0u8, 0u8, 0u8]]
    }

    fn shape() -> (rows: &'static [&'static [u8]]) {
        let rows: &'static [&'static [u8]] = &[&[6, 6, 0], &[0, 6, 6], &[0, 0, 0]];
        proof {
            let cells = Self::cells();
            assert(rows@[0]@ =~= cells[0]);
            assert(rows@[1]@ =~= cells[1]);
            assert(rows@[2]@ =~= cells[2]);
            assert(matrix_of(rows) =~= cells);
        }
        rows
    }
}

impl Figure for O {
    open spec fn cells() -> Seq<Seq<u8>> {
        seq![seq![7u8, 7u8], seq![7u8, 7u8]]
    }

    fn shape() -> (rows: &'static [&'static [u8]]) {
        let rows: &'static [&'static [u8]] = &[&[7, 7], &[7, 7]];
        proof {
            let cells = Self::cells();
            assert(rows@[0]@ =~= cells[0]);
            assert(rows@[1]@ =~= cells[1]);
            assert(matrix_of(rows) =~= cells);
        }
        rows
    }
}

/// One of the seven kinds of tetromino.
#[derive(Clone, Copy, Debug, PartialEq, Eq, Structural)]
pub enum Tetromino {
    I(I),
    T(T),
    J(J),
    L(L),
    S(S),
    Z(Z),
    O(O),
}


impl From<I> for Tetromino {
    fn from(figure: I) -> (tetromino: Tetromino) {
        Tetromino::I(figure)
    }
}

impl vstd::std_specs::convert::FromSpecImpl<I> for Tetromino {
    open spec fn obeys_from_spec() -> bool {
        true
    }

    open spec fn from_spec(figure: I) -> Tetromino {
        Tetromino::I(figure)
    }
}

impl From<T> for Tetromino {
    fn from(figure: T) -> (tetromino: Tetromino) {
        Tetromino::T(figure)
    }
}

impl vstd::std_specs::convert::FromSpecImpl<T> for Tetromino {
    open spec fn obeys_from_spec() -> bool {
        true
    }

    open spec fn from_spec(figure: T) -> Tetromino {
        Tetromino::T(figure)
    }
}

impl From<J> for Tetromino {
    fn from(figure: J) -> (tetromino: Tetromino) {
        Tetromino::J(figure)
    }
}

impl vstd::std_specs::convert::FromSpecImpl<J> for Tetromino {
    open spec fn obeys_from_spec() -> bool {
        true
    }

    open spec fn from_spec(figure: J) -> Tetromino {
        Tetromino::J(figure)
    }
}

impl From<L> for Tetromino {
    fn from(figure: L) -> (tetromino: Tetromino) {
        Tetromino::L(figure)
    }
}

impl vstd::std_specs::convert::FromSpecImpl<L> for Tetromino {
    open spec fn obeys_from_spec() -> bool {
        true
    }

    open spec fn from_spec(figure: L) -> Tetromino {
        Tetromino::L(figure)
    }
}

impl From<S> for Tetromino {
    fn from(figure: S) -> (tetromino: Tetromino) {
        Tetromino::S(figure)
    }
}

impl vstd::std_specs::convert::FromSpecImpl<S> for Tetromino {
    open spec fn obeys_from_spec() -> bool {
        true
    }

    open spec fn from_spec(figure: S) -> Tetromino {
        Tetromino::S(figure)
    }
}

impl From<Z> for Tetromino {
    fn from(figure: Z) -> (tetromino: Tetromino) {
        Tetromino::Z(figure)
    }
}

impl vstd::std_specs::convert::FromSpecImpl<Z> for Tetromino {
    open spec fn obeys_from_spec() -> bool {
        true
    }

    open spec fn from_spec(figure: Z) -> Tetromino {
        Tetromino::Z(figure)
    }
}

impl From<O> for Tetromino {
    fn from(figure: O) -> (tetromino: Tetromino) {
        Tetromino::O(figure)
    }
}

impl vstd::std_specs::convert::FromSpecImpl<O> for Tetromino {
    open spec fn obeys_from_spec() -> bool {
        true
    }

    open spec fn from_spec(figure: O) -> Tetromino {
        Tetromino::O(figure)
    }
}

/// `cells` turned into `rotation`: a quarter turn for `CW`, a half turn for
/// `Reverse`, three quarter turns for `CCW`.
pub open spec fn rotated(cells: Seq<Seq<u8>>, rotation: Rotation) -> Seq<Seq<u8>> {
    let n = cells.len() as int;
    Seq::new(
        cells.len(),
        |j: int|
            Seq::new(
                cells.len(),
                |i: int|
                    match rotation {
                        Rotation::Default => cells[j][i],
                        Rotation::CW => cells[n - i - 1][j],
                        Rotation::Reverse => cells[n - j - 1][n - i - 1],
                        Rotation::CCW => cells[i][n - j - 1],
                    },
            ),
    )
}

impl Tetromino {
    /// The shape in its default orientation.
    pub open spec fn cells(self) -> Seq<Seq<u8>> {
        match self {
            Tetromino::I(_) => I::cells(),
            Tetromino::T(_) => T::cells(),
            Tetromino::J(_) => J::cells(),
            Tetromino::L(_) => L::cells(),
            Tetromino::S(_) => S::cells(),
            Tetromino::Z(_) => Z::cells(),
            Tetromino::O(_) => O::cells(),
        }
    }

    /// The side of the square box that holds the shape.
    pub open spec fn side(self) -> int {
        self.cells().len() as int
    }

    /// The value of the occupied cells.
    pub open spec fn color(self) -> u8 {
        match self {
            Tetromino::I(_) => 1,
            Tetromino::T(_) => 2,
            Tetromino::J(_) => 3,
            Tetromino::L(_) => 4,
            Tetromino::S(_) => 5,
            Tetromino::Z(_) => 6,
            Tetromino::O(_) => 7,
        }
    }

    /// How the kind turns.
    pub open spec fn arity(self) -> Direction {
        match self {
            Tetromino::T(_) | Tetromino::L(_) | Tetromino::J(_) => Direction::Full,
            Tetromino::I(_) | Tetromino::S(_) | Tetromino::Z(_) => Direction::Half,
            Tetromino::O(_) => Direction::Fixed,
        }
    }

    /// The offsets to try, in order, when a block of this kind turns out of
    /// `rotation`. There are none for an orientation the kind is never in.
    pub open spec fn kicks(self, rotation: Rotation) -> Seq<(i16, i16)> {
        match self {
            Tetromino::T(_) | Tetromino::L(_) | Tetromino::J(_) => match rotation {
                Rotation::Default => seq![
                    (0i16, 0i16),
                    (-1i16, 0i16),
                    (-1i16, 1i16),
                    (0i16, -2i16),
                    (-1i16, -2i16),
                ],
                Rotation::CW => seq![
                    (0i16, 0i16),
                    (1i16, 0i16),
                    (1i16, -1i16),
                    (0i16, 2i16),
                    (1i16, 2i16),
                ],
                Rotation::Reverse => seq![
                    (0i16, 0i16),
                    (1i16, 0i16),
                    (1i16, 1i16),
                    (0i16, -2i16),
                    (1i16, -2i16),
                ],
                Rotation::CCW => seq![
                    (0i16, 0i16),
                    (-1i16, 0i16),
                    (-1i16, -1i16),
                    (0i16, 2i16),
                    (-1i16, 2i16),
                ],
            },
            Tetromino::S(_) | Tetromino::Z(_) => match rotation {
                Rotation::Default => seq![
                    (0i16, 0i16),
                    (1i16, 0i16),
                    (1i16, 1i16),
                    (0i16, -2i16),
                    (1i16, -2i16),
                ],
                Rotation::CCW => seq![
                    (0i16, 0i16),
                    (-1i16, 0i16),
                    (-1i16, -1i16),
                    (0i16, 2i16),
                    (-1i16, 2i16),
                ],
                _ => seq![],
            },
            Tetromino::I(_) => match rotation {
                Rotation::Default => seq![
                    (0i16, 0i16),
                    (-1i16, 0i16),
                    (2i16, 0i16),
                    (-1i16, 2i16),
                    (2i16, -1i16),
                ],
                Rotation::CCW => seq![
                    (0i16, 0i16),
                    (1i16, 0i16),
                    (-2i16, 0i16),
                    (1i16, -2i16),
                    (-2i16, 1i16),
                ],
                _ => seq![],
            },
            Tetromino::O(_) => seq![(0i16, 0i16)],
        }
    }

    /// The shape in a box of four by four: against the top of the box if it
    /// is four high and one row down if not, against the left of the box if it
    /// is at least three wide and one column in if not.
    pub open spec fn preview_cells(self) -> Seq<Seq<u8>> {
        let cells = self.cells();
        let n = self.side();
        let top: int = if n < 4 { 1 } else { 0 };
        let left: int = if n < 3 { 1 } else { 0 };
        Seq::new(
            4,
            |r: int|
                Seq::new(
                    4,
                    |c: int|
                        if 0 <= r - top < n && 0 <= c - left < n {
                            cells[r - top][c - left]
                        } else {
                            0u8
                        },
                ),
        )
    }

    /// Every shape fills a square of side two, three or four, and its cells
    /// are empty or hold the colour of the kind.
    pub proof fn lemma_square(self)
        ensures
            2 <= self.side() <= 4,
            1 <= self.color() <= 7,
            forall|j: int| 0 <= j < self.side() ==> (#[trigger] self.cells()[j]).len() == self.side(),
            forall|j: int, i: int|
                0 <= j < self.side() && 0 <= i < self.side() ==> {
                    ||| #[trigger] self.cells()[j][i] == 0
                    ||| self.cells()[j][i] == self.color()
                },
    {
    }

    /// Every kick table of an orientation the kind can be in begins with the
    /// turn in place.
    pub proof fn lemma_kicks(self, rotation: Rotation)
        requires
            allows(self.arity(), rotation),
        ensures
            1 <= self.kicks(rotation).len() <= 5,
            self.kicks(rotation)[0] == (0i16, 0i16),
            forall|k: int|
                0 <= k < self.kicks(rotation).len() ==> {
                    &&& -2 <= (#[trigger] self.kicks(rotation)[k]).0 <= 2
                    &&& -2 <= self.kicks(rotation)[k].1 <= 2
                },
    {
    }

    /// The shape in its default orientation.
    pub fn shape(&self) -> (rows: &'static [&'static [u8]])
        ensures
            matrix_of(rows) == self.cells(),
    {
        match self {
            Tetromino::I(_) => I::shape(),
            Tetromino::T(_) => T::shape(),
            Tetromino::L(_) => L::shape(),
            Tetromino::J(_) => J::shape(),
            Tetromino::S(_) => S::shape(),
            Tetromino::Z(_) => Z::shape(),
            Tetromino::O(_) => O::shape(),
        }
    }

    /// How the kind turns.
    pub fn dir(&self) -> (dir: Direction)
        ensures
            dir == self.arity(),
    {
        match self {
            Tetromino::T(_) | Tetromino::L(_) | Tetromino::J(_) => Direction::Full,
            Tetromino::I(_) | Tetromino::S(_) | Tetromino::Z(_) => Direction::Half,
            Tetromino::O(_) => Direction::Fixed,
        }
    }

    /// The offsets to try, in order, when a block of this kind turns out of
    /// `rotation`.
    pub fn wallkick(&self, rotation: Rotation) -> (kicks: Vec<(i16, i16)>)
        requires
            allows(self.arity(), rotation),
        ensures
            kicks@ == self.kicks(rotation),
    {
        let kicks: Vec<(i16, i16)> = match self {
            Tetromino::T(_) | Tetromino::L(_) | Tetromino::J(_) => match rotation {
                Rotation::Default => vec![(0, 0), (-1, 0), (-1, 1), (0, -2), (-1, -2)],
                Rotation::CW => vec![(0, 0), (1, 0), (1, -1), (0, 2), (1, 2)],
                Rotation::Reverse => vec![(0, 0), (1, 0), (1, 1), (0, -2), (1, -2)],
                Rotation::CCW => vec![(0, 0), (-1, 0), (-1, -1), (0, 2), (-1, 2)],
            },
            Tetromino::S(_) | Tetromino::Z(_) => match rotation {
                Rotation::Default => vec![(0, 0), (1, 0), (1, 1), (0, -2), (1, -2)],
                _ => vec![(0, 0), (-1, 0), (-1, -1), (0, 2), (-1, 2)],
            },
            Tetromino::I(_) => match rotation {
                Rotation::Default => vec![(0, 0), (-1, 0), (2, 0), (-1, 2), (2, -1)],
                _ => vec![(0, 0), (1, 0), (-2, 0), (1, -2), (-2, 1)],
            },
            Tetromino::O(_) => vec![(0, 0)],
        };
        assert(kicks@ =~= self.kicks(rotation));
        kicks
    }

    /// The shape in a box of four by four, for showing what comes next.
    pub fn preview(&self) -> (picture: Renderable)
        ensures
            picture@ == self.preview_cells(),
    {
        let shape = self.shape();
        proof {
            self.lemma_square();
        }
        let n: usize = shape.len();
        let top: usize = if n < 4 { 1 } else { 0 };
        let left: usize = if n < 3 { 1 } else { 0 };
        let mut rows: Vec<Vec<u8>> = Vec::new();
        let mut r: usize = 0;
        while r < 4
            invariant
                r <= 4,
                matrix_of(shape) == self.cells(),
                n == self.side(),
                2 <= n <= 4,
                forall|j: int| 0 <= j < n ==> (#[trigger] self.cells()[j]).len() == n,
                top == if n < 4 { 1usize } else { 0usize },
                left == if n < 3 { 1usize } else { 0usize },
                rows@.len() == r,
                forall|k: int| 0 <= k < r ==> (#[trigger] rows@[k])@ == self.preview_cells()[k],
            decreases 4 - r,
        {
            let mut row: Vec<u8> = Vec::new();
            let mut c: usize = 0;
            while c < 4
                invariant
                    c <= 4,
                    r < 4,
                    matrix_of(shape) == self.cells(),
                    n == self.side(),
                    2 <= n <= 4,
                    forall|j: int| 0 <= j < n ==> (#[trigger] self.cells()[j]).len() == n,
                    top == if n < 4 { 1usize } else { 0usize },
                    left == if n < 3 { 1usize } else { 0usize },
                    row@.len() == c,
                    forall|k: int| 0 <= k < c ==> #[trigger] row@[k] == self.preview_cells()[r as int][k],
                decreases 4 - c,
            {
                let cell: u8 = if top <= r && r - top < n && left <= c && c - left < n {
                    assert(matrix_of(shape)[r - top] == shape@[r - top]@);
                    shape[r - top][c - left]
                } else {
                    0
                };
                row.push(cell);
                c += 1;
            }
            assert(row@ =~= self.preview_cells()[r as int]);
            rows.push(row);
            r += 1;
        }
        let picture = Renderable(rows);
        assert(picture@ =~= self.preview_cells());
        picture
    }
}


/// A tetromino in some orientation, with the top left corner of its box at
/// column `x` and row `y` of the plane. Rows count downwards.
pub struct Piece {
    pub tetromino: Tetromino,
    pub rotation: Rotation,
    pub x: int,
    pub y: int,
}

impl Piece {
    /// The shape as it is oriented.
    pub open spec fn cells(self) -> Seq<Seq<u8>> {
        rotated(self.tetromino.cells(), self.rotation)
    }

    /// Whether row `j`, column `i` of the box is occupied.
    pub open spec fn body(self, j: int, i: int) -> bool {
        &&& 0 <= j < self.tetromino.side()
        &&& 0 <= i < self.tetromino.side()
        &&& self.cells()[j][i] > 0
    }

    /// Whether row `r`, column `c` of the plane is occupied by the piece.
    pub open spec fn covers(self, r: int, c: int) -> bool {
        self.body(r - self.y, c - self.x)
    }

    /// Whether `(j, i)` is the lowest occupied cell of column `i` of the box.
    pub open spec fn bottom(self, j: int, i: int) -> bool {
        &&& self.body(j, i)
        &&& forall|below: int| j < below ==> !self.body(below, i)
    }

    /// Whether row `r`, column `c` of the plane holds the lowest occupied cell
    /// of a column of the piece.
    pub open spec fn rests(self, r: int, c: int) -> bool {
        self.bottom(r - self.y, c - self.x)
    }

    /// The piece moved by `dx` columns and `dy` rows.
    pub open spec fn shifted(self, dx: int, dy: int) -> Piece {
        Piece { x: self.x + dx, y: self.y + dy, ..self }
    }

    /// The piece turned once, in place.
    pub open spec fn turned(self) -> Piece {
        Piece { rotation: self.rotation.turned(self.tetromino.arity()), ..self }
    }

    /// Whether the orientation is one that the kind can be in.
    pub open spec fn upright(self) -> bool {
        allows(self.tetromino.arity(), self.rotation)
    }

    /// Whether the position can be held by a block.
    pub open spec fn representable(self) -> bool {
        &&& i16::MIN <= self.x <= i16::MAX
        &&& i16::MIN <= self.y <= i16::MAX
    }

    /// A new piece of kind `tetromino` above a field `cols` wide: in its
    /// default orientation, its box centred and one row above the field.
    pub open spec fn spawned(tetromino: Tetromino, cols: int) -> Piece {
        Piece {
            tetromino,
            rotation: Rotation::Default,
            x: cols / 2 - (tetromino.side() + 1) / 2,
            y: -1,
        }
    }

    /// Turning a shape keeps its cells: each is empty or holds the colour of
    /// the kind, and at least one is occupied.
    pub proof fn lemma_cells(self)
        ensures
            self.cells().len() == self.tetromino.side(),
            forall|j: int|
                0 <= j < self.tetromino.side() ==> (#[trigger] self.cells()[j]).len()
                    == self.tetromino.side(),
            forall|j: int, i: int|
                self.body(j, i) ==> #[trigger] self.cells()[j][i] == self.tetromino.color(),
            exists|j: int, i: int| self.body(j, i),
    {
        self.tetromino.lemma_square();
        let n = self.tetromino.side();
        let base = self.tetromino.cells();
        // In every shape the middle of the second row is occupied, and a turn
        // takes it to one of four cells.
        assert(base[1][1] > 0);
        match self.rotation {
            Rotation::Default => {
                assert(self.body(1, 1));
            },
            Rotation::CW => {
                assert(self.body(1, n - 2));
            },
            Rotation::Reverse => {
                assert(self.body(n - 2, n - 2));
            },
            Rotation::CCW => {
                assert(self.body(n - 2, 1));
            },
        }
    }
}

/// In every orientation the occupied cells of a column of a shape have no gap
/// between them.
pub proof fn lemma_columns_are_solid(piece: Piece, top: int, j: int, low: int, i: int)
    requires
        piece.body(top, i),
        piece.body(low, i),
        top <= j <= low,
    ensures
        piece.body(j, i),
{
    piece.tetromino.lemma_square();
}

/// The falling block: a tetromino, its orientation and its place, with room
/// to remember one earlier place while a move is tried.
#[derive(Debug)]
pub struct Block {
    pub tetromino: Tetromino,
    pub rotation: Rotation,
    pub x: i16,
    pub y: i16,
    /// Where the block was before the move that is being tried, if one is.
    pub saved: Option<(i16, i16, Rotation)>,
}

impl View for Block {
    type V = Piece;

    open spec fn view(&self) -> Piece {
        Piece {
            tetromino: self.tetromino,
            rotation: self.rotation,
            x: self.x as int,
            y: self.y as int,
        }
    }
}

impl Block {
    /// A new block of kind `tetromino` above the field.
    pub fn spawn(tetromino: Tetromino, settings: &Settings) -> (block: Block)
        ensures
            block@ == Piece::spawned(tetromino, settings.cols as int),
            block.saved is None,
    {
        proof {
            tetromino.lemma_square();
        }
        let side: i16 = tetromino.shape().len() as i16;
        let x: i16 = (settings.cols / 2) as i16 - (side + 1) / 2;
        Block { tetromino, rotation: Rotation::Default, x, y: -1, saved: None }
    }

    /// The shape as the block is oriented.
    pub fn shape(&self) -> (cells: Renderable)
        ensures
            cells@ == self@.cells(),
    {
        let shape = self.tetromino.shape();
        proof {
            self.tetromino.lemma_square();
        }
        let n: usize = shape.len();
        let mut rows: Vec<Vec<u8>> = Vec::new();
        let mut j: usize = 0;
        while j < n
            invariant
                j <= n,
                matrix_of(shape) == self.tetromino.cells(),
                n == self.tetromino.side(),
                forall|k: int| 0 <= k < n ==> (#[trigger] self.tetromino.cells()[k]).len() == n,
                rows@.len() == j,
                forall|k: int| 0 <= k < j ==> (#[trigger] rows@[k])@ == self@.cells()[k],
            decreases n - j,
        {
            let mut row: Vec<u8> = Vec::new();
            let mut i: usize = 0;
            while i < n
                invariant
                    i <= n,
                    j < n,
                    matrix_of(shape) == self.tetromino.cells(),
                    n == self.tetromino.side(),
                    forall|k: int|
                        0 <= k < n ==> (#[trigger] self.tetromino.cells()[k]).len() == n,
                    row@.len() == i,
                    forall|k: int| 0 <= k < i ==> #[trigger] row@[k] == self@.cells()[j as int][k],
                decreases n - i,
            {
                let (from_row, from_col): (usize, usize) = match self.rotation {
                    Rotation::Default => (j, i),
                    Rotation::CW => (n - i - 1, j),
                    Rotation::Reverse => (n - j - 1, n - i - 1),
                    Rotation::CCW => (i, n - j - 1),
                };
                assert(matrix_of(shape)[from_row as int] == shape@[from_row as int]@);
                row.push(shape[from_row][from_col]);
                i += 1;
            }
            assert(row@ =~= self@.cells()[j as int]);
            rows.push(row);
            j += 1;
        }
        let cells = Renderable(rows);
        assert(cells@ =~= self@.cells());
        cells
    }

    /// Moves the block to `(x, y)` in orientation `rotation`, remembering
    /// where it was.
    pub fn begin(&mut self, x: i16, y: i16, rotation: Rotation)
        ensures
            final(self).tetromino == old(self).tetromino,
            final(self).x == x,
            final(self).y == y,
            final(self).rotation == rotation,
            final(self).saved == Some((old(self).x, old(self).y, old(self).rotation)),
    {
        self.saved = Some((self.x, self.y, self.rotation));
        self.x = x;
        self.y = y;
        self.rotation = rotation;
    }

    /// Keeps the block where it is and forgets where it was.
    pub fn commit(&mut self)
        ensures
            final(self)@ == old(self)@,
            final(self).saved is None,
    {
        self.saved = None;
    }

    /// Puts the block back where it was, if a move is being tried.
    pub fn revert(&mut self)
        ensures
            final(self).tetromino == old(self).tetromino,
            final(self).saved is None,
            match old(self).saved {
                Some((x, y, rotation)) => {
                    &&& final(self).x == x
                    &&& final(self).y == y
                    &&& final(self).rotation == rotation
                },
                None => final(self)@ == old(self)@,
            },
    {
        if let Some((x, y, rotation)) = self.saved {
            self.x = x;
            self.y = y;
            self.rotation = rotation;
            self.saved = None;
        }
    }

    /// Ends the move being tried: keeps it if `commit` holds, undoes it if not.
    pub fn end(&mut self, commit: bool)
        ensures
            final(self).tetromino == old(self).tetromino,
            final(self).saved is None,
            match old(self).saved {
                Some((x, y, rotation)) if !commit => {
                    &&& final(self).x == x
                    &&& final(self).y == y
                    &&& final(self).rotation == rotation
                },
                _ => final(self)@ == old(self)@,
            },
    {
        if commit {
            self.commit()
        } else {
            self.revert()
        };
    }
}

} // verus!

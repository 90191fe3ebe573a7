//! Plain data shared by the engine and its drivers.

use crate::menu::MenuMode;
use crate::menu::MenuView;
use vstd::prelude::*;

verus! {

/// A point in time, in milliseconds of the driver's clock.
pub type Timestamp = u64;

/// The smallest number of rows and of columns a field may have.
pub const MIN_SIDE: u16 = 4;

/// The largest number of rows and of columns a field may have: block
/// coordinates are `i16`.
pub const MAX_SIDE: u16 = 0x7fff;

/// A matrix of cells, top row first. A cell is `0` when empty and the colour
/// index of a tetromino (`1..=7`) otherwise.
#[derive(Debug)]
pub struct Renderable(pub Vec<Vec<u8>>);

impl View for Renderable {
    type V = Seq<Seq<u8>>;

    open spec fn view(&self) -> Seq<Seq<u8>> {
        Seq::new(self.0@.len(), |r: int| self.0@[r]@)
    }
}

impl Clone for Renderable {
    fn clone(&self) -> (copy: Self)
        ensures
            copy@ == self@,
    {
        let mut rows: Vec<Vec<u8>> = Vec::new();
        let mut r: usize = 0;
        while r < self.0.len()
            invariant
                r <= self.0.len(),
                rows@.len() == r,
                forall|k: int| 0 <= k < r ==> rows@[k]@ == self.0@[k]@,
            decreases self.0.len() - r,
        {
            let row = self.0[r].clone();
            assert(row@ =~= self.0@[r as int]@);
            rows.push(row);
            r += 1;
        }
        let copy = Renderable(rows);
        assert(copy@ =~= self@);
        copy
    }
}

impl core::ops::Deref for Renderable {
    type Target = Vec<Vec<u8>>;

    fn deref(&self) -> (rows: &Vec<Vec<u8>>)
        ensures
            *rows == self.0,
    {
        &self.0
    }
}

/// A `height` by `width` matrix of empty cells.
pub open spec fn blank(height: int, width: int) -> Seq<Seq<u8>> {
    Seq::new(height as nat, |r: int| Seq::new(width as nat, |c: int| 0u8))
}

/// The size of the field and the pace of the game.
#[derive(Clone, Copy, Debug)]
pub struct Settings {
    pub cols: u16,
    pub rows: u16,
    /// Time between two steps of gravity.
    pub delay: Timestamp,
}

impl Settings {
    /// A field needs at least four rows and four columns, and no more of
    /// either than an `i16` coordinate can address.
    pub open spec fn valid(&self) -> bool {
        &&& MIN_SIDE <= self.cols <= MAX_SIDE
        &&& MIN_SIDE <= self.rows <= MAX_SIDE
    }
}

/// What the player did since the last tick.
#[derive(Clone, Copy, Debug, PartialEq, Eq, Structural)]
pub enum Action {
    Up,
    Down,
    Left,
    Right,
    Drop,
    Escape,
}

/// A picture of the game in play.
#[derive(Debug)]
pub struct GameMode {
    /// The field with the falling block drawn into it.
    pub main: Renderable,
    /// The next tetromino in a four by four box.
    pub preview: Renderable,
    pub score: u32,
}

/// The mathematical content of a [`GameMode`].
pub struct Picture {
    pub main: Seq<Seq<u8>>,
    pub preview: Seq<Seq<u8>>,
    pub score: u32,
}

impl View for GameMode {
    type V = Picture;

    open spec fn view(&self) -> Picture {
        Picture { main: self.main@, preview: self.preview@, score: self.score }
    }
}

/// What a tick asks of the driver.
#[derive(Debug)]
pub enum GameChange<'a, T> {
    /// Draw the game.
    Draw(GameMode),
    /// Draw a menu.
    Text(&'a MenuMode<T>),
    /// Throw the game away and start a new one.
    Restart,
    /// Stop.
    Exit,
    /// Nothing to draw.
    Idle,
}

/// The mathematical content of a [`GameChange`].
pub enum Signal<T> {
    Draw(Picture),
    Text(MenuView<T>),
    Restart,
    Exit,
    Idle,
}

impl<'a, T> View for GameChange<'a, T> {
    type V = Signal<T>;

    open spec fn view(&self) -> Signal<T> {
        match *self {
            GameChange::Draw(mode) => Signal::Draw(mode@),
            GameChange::Text(menu) => Signal::Text(menu@),
            GameChange::Restart => Signal::Restart,
            GameChange::Exit => Signal::Exit,
            GameChange::Idle => Signal::Idle,
        }
    }
}

} // verus!

//! Game state: a square board of fields.

use vstd::prelude::*;

verus! {

/// One field of a board.
#[derive(Debug, Clone, Copy, PartialEq, Eq, Structural)]
pub enum Field {
    Empty,
    Ship,
    Hit,
    Miss,
}

impl Default for Field {
    fn default() -> (r: Field)
        ensures
            r == Field::Empty,
    {
        Field::Empty
    }
}

/// A board, stored row by row: the field at column `x` and row `y` is at
/// index `y * SIZE + x`.
#[derive(Debug, Clone, Copy, PartialEq, Eq)]
pub struct Board(pub [Field; 4]);

/// Number of fields of a board whose value is `Field::Ship`.
pub open spec fn ship_count(cells: Seq<Field>) -> nat
    decreases cells.len(),
{
    if cells.len() == 0 {
        0
    } else {
        ship_count(cells.drop_last()) + if cells.last() == Field::Ship {
            1nat
        } else {
            0nat
        }
    }
}

/// Index of the field at column `x` and row `y`.
pub open spec fn cell_index(x: int, y: int) -> int {
    y * Board::SIZE + x
}

impl Default for Board {
    fn default() -> (r: Board)
        ensures
            r@ == seq![Field::Empty; 4],
    {
        let r = Board([Field::Empty, Field::Empty, Field::Empty, Field::Empty]);
        assert(r@ =~= seq![Field::Empty; 4]);
        r
    }
}

impl View for Board {
    type V = Seq<Field>;

    open spec fn view(&self) -> Seq<Field> {
        self.0@
    }
}

impl Board {
    /// Width and height of a board.
    pub const SIZE: usize = 2;

    /// Number of ships on a valid initial board.
    pub const NUM_SHIPS: usize = 1;

    /// The field at column `x` and row `y`.
    pub fn get(&self, x: usize, y: usize) -> (r: Field)
        requires
            x < Board::SIZE,
            y < Board::SIZE,
        ensures
            r == self@[cell_index(x as int, y as int)],
    {
        self.0[y * Self::SIZE + x]
    }

    /// Overwrites the field at column `x` and row `y`.
    pub fn set(&mut self, x: usize, y: usize, cell: Field)
        requires
            x < Board::SIZE,
            y < Board::SIZE,
        ensures
            final(self)@ == old(self)@.update(cell_index(x as int, y as int), cell),
    {
        self.0[y * Self::SIZE + x] = cell;
    }

    /// Whether the board is a valid initial board: it holds exactly
    /// `NUM_SHIPS` ships.
    pub fn validate(&self) -> (r: bool)
        ensures
            r == (ship_count(self@) == Board::NUM_SHIPS),
    {
        let mut num_ships: usize = 0;
        let mut i: usize = 0;
        while i < 4
            invariant
                i <= 4,
                self@.len() == 4,
                num_ships == ship_count(self@.subrange(0, i as int)),
                num_ships <= i,
            decreases 4 - i,
        {
            assert(self@.subrange(0, i as int + 1).drop_last() =~= self@.subrange(0, i as int));
            if self.0[i] == Field::Ship {
                num_ships = num_ships + 1;
            }
            i = i + 1;
        }
        assert(self@.subrange(0, 4) =~= self@);
        num_ships == Self::NUM_SHIPS
    }

    /// Whether no ship is left unhit.
    pub fn all_sunk(&self) -> (r: bool)
        ensures
            r == !(exists|i: int| 0 <= i < self@.len() && self@[i] == Field::Ship),
    {
        let mut i: usize = 0;
        while i < 4
            invariant
                i <= 4,
                self@.len() == 4,
                forall|j: int| 0 <= j < i ==> self@[j] != Field::Ship,
            decreases 4 - i,
        {
            if self.0[i] == Field::Ship {
                return false;
            }
            i = i + 1;
        }
        true
    }

    /// Shoots at column `x` and row `y`: `Some(true)` on a hit,
    /// `Some(false)` on a miss, `None` where the field was shot at before.
    pub fn shoot(&mut self, x: usize, y: usize) -> (r: Option<bool>)
        requires
            x < Board::SIZE,
            y < Board::SIZE,
        ensures
            shot_outcome(old(self)@[cell_index(x as int, y as int)]) == (r, final(self)@[cell_index(x as int, y as int)]),
            final(self)@ == old(self)@.update(cell_index(x as int, y as int), final(self)@[cell_index(x as int, y as int)]),
    {
        match self.get(x, y) {
            Field::Empty => {
                self.set(x, y, Field::Miss);
                Some(false)
            },
            Field::Ship => {
                self.set(x, y, Field::Hit);
                Some(true)
            },
            Field::Hit | Field::Miss => None,
        }
    }
}

/// What a shot at a field reports, and what the field becomes.
pub open spec fn shot_outcome(f: Field) -> (Option<bool>, Field) {
    match f {
        Field::Empty => (Some(false), Field::Miss),
        Field::Ship => (Some(true), Field::Hit),
        Field::Hit => (None, Field::Hit),
        Field::Miss => (None, Field::Miss),
    }
}

} // verus!

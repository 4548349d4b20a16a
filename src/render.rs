//! Text pictures of boards, one line per row: `.` water, `+` ship, `x` hit,
//! `o` miss. The enemy's picture shows its ships as water.

use vstd::prelude::*;
use crate::state::{Board, Field};

verus! {

/// The character that shows a field on one's own board.
pub open spec fn own_symbol(f: Field) -> char {
    match f {
        Field::Empty => '.',
        Field::Ship => '+',
        Field::Hit => 'x',
        Field::Miss => 'o',
    }
}

/// The character that shows a field on the enemy's board.
pub open spec fn enemy_symbol(f: Field) -> char {
    match f {
        Field::Empty | Field::Ship => '.',
        Field::Hit => 'x',
        Field::Miss => 'o',
    }
}

/// The character that shows a field, on the enemy's board or one's own.
pub open spec fn symbol(f: Field, enemy: bool) -> char {
    if enemy {
        enemy_symbol(f)
    } else {
        own_symbol(f)
    }
}

/// The picture of `cells`: each row of `SIZE` fields, then a line feed.
pub open spec fn picture(cells: Seq<Field>, enemy: bool) -> Seq<char> {
    Seq::new(
        6,
        |i: int|
            if i % 3 == 2 {
                '\n'
            } else {
                symbol(cells[(i / 3) * 2 + i % 3], enemy)
            },
    )
}

fn push_symbol(out: &mut String, f: Field, enemy: bool)
    ensures
        final(out)@ == old(out)@.push(symbol(f, enemy)),
{
    match f {
        Field::Empty => {
            out.append(".");
            proof { reveal_strlit("."); }
        },
        Field::Ship => {
            if enemy {
                out.append(".");
                proof { reveal_strlit("."); }
            } else {
                out.append("+");
                proof { reveal_strlit("+"); }
            }
        },
        Field::Hit => {
            out.append("x");
            proof { reveal_strlit("x"); }
        },
        Field::Miss => {
            out.append("o");
            proof { reveal_strlit("o"); }
        },
    }
}

fn draw_rows(board: &Board, enemy: bool) -> (r: String)
    ensures
        r@ == picture(board@, enemy),
{
    let ghost full = picture(board@, enemy);
    let mut out = String::new();
    let mut y: usize = 0;
    while y < Board::SIZE
        invariant
            y <= Board::SIZE,
            board@.len() == 4,
            full == picture(board@, enemy),
            out@ == full.take(3 * y),
        decreases Board::SIZE - y,
    {
        let mut x: usize = 0;
        while x < Board::SIZE
            invariant
                y < Board::SIZE,
                x <= Board::SIZE,
                board@.len() == 4,
                full == picture(board@, enemy),
                out@ == full.take(3 * y + x),
            decreases Board::SIZE - x,
        {
            let f = board.get(x, y);
            push_symbol(&mut out, f, enemy);
            proof {
                let i = 3 * y + x;
                assert(i % 3 == x && i / 3 == y);
                assert(y * Board::SIZE + x == (i / 3) * 2 + i % 3);
                assert(full[i] == symbol(f, enemy));
                assert(full.take(i + 1) =~= full.take(i).push(full[i]));
            }
            x = x + 1;
        }
        out.append("\n");
        proof {
            reveal_strlit("\n");
            let i = 3 * y + 2;
            assert(i % 3 == 2);
            assert(full.take(i + 1) =~= full.take(i).push(full[i]));
        }
        y = y + 1;
    }
    assert(full.take(6) =~= full);
    out
}

impl Board {
    /// The picture of one's own board: ships shown.
    pub fn render(&self) -> (r: String)
        ensures
            r@ == picture(self@, false),
    {
        draw_rows(self, false)
    }

    /// The picture of the enemy's board: ships not shown.
    pub fn render_enemy(&self) -> (r: String)
        ensures
            r@ == picture(self@, true),
    {
        draw_rows(self, true)
    }
}

} // verus!

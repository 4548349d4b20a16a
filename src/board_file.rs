//! The board file: `SIZE` lines of `SIZE` characters each, `.` for water
//! and `+` for a ship, with exactly `NUM_SHIPS` ships.

use vstd::prelude::*;
use vstd::utf8::encode_utf8;
use crate::state::{Board, Field, ship_count};

verus! {

/// Most bytes of a board file that are read: each line with up to two
/// line-ending bytes, and two more.
pub const UPPER_BOARD_FILE_LIMIT: usize = (Board::SIZE + 2) * Board::SIZE + 2;

/// Fewest bytes of a complete board file: the last line may lack its
/// line ending.
pub const LOWER_BOARD_FILE_LIMIT: usize = (Board::SIZE + 1) * Board::SIZE;

/// Why a board file was refused.
#[derive(Debug, Clone, Copy, PartialEq, Eq, Structural)]
pub enum BoardFileError {
    /// Fewer bytes than a complete board has.
    Incomplete,
    /// Not `SIZE` lines; `actual` is how many there are.
    LineCount { actual: usize },
    /// Line number `line` (from 1) is not `SIZE` bytes long.
    LineLength { line: usize },
    /// A character other than `.` and `+`.
    InvalidChar(char),
    /// Not exactly `NUM_SHIPS` ships.
    ShipCount,
}

/// The field that a board-file character stands for.
pub open spec fn cell_of(c: char) -> Option<Field> {
    if c == '.' {
        Some(Field::Empty)
    } else if c == '+' {
        Some(Field::Ship)
    } else {
        None
    }
}

/// Index of the first line feed at or after `i`, or the length of `s`.
pub open spec fn line_end(s: Seq<char>, i: int) -> int
    decreases s.len() - i,
{
    if i < 0 || i >= s.len() {
        s.len() as int
    } else if s[i] == '\n' {
        i
    } else {
        line_end(s, i + 1)
    }
}

/// The line that runs from `i` to the line feed at `j`, without a carriage
/// return just before that line feed.
pub open spec fn line_text(s: Seq<char>, i: int, j: int) -> Seq<char> {
    if i < j && j < s.len() && s[j - 1] == '\r' {
        s.subrange(i, j - 1)
    } else {
        s.subrange(i, j)
    }
}

/// The lines of `s` from index `i` on, split as `str::lines` splits them.
pub open spec fn lines_from(s: Seq<char>, i: int) -> Seq<Seq<char>>
    decreases s.len() - i,
{
    if 0 <= i < s.len() {
        let j = line_end(s, i);
        if i <= j < s.len() {
            seq![line_text(s, i, j)] + lines_from(s, j + 1)
        } else {
            seq![line_text(s, i, j)]
        }
    } else {
        Seq::empty()
    }
}

/// The lines of a text.
pub open spec fn text_lines(s: Seq<char>) -> Seq<Seq<char>> {
    lines_from(s, 0)
}

/// The first character of `line` from index `k` on that stands for no field.
pub open spec fn first_bad_char(line: Seq<char>, k: int) -> Option<char>
    decreases line.len() - k,
{
    if k < 0 || k >= line.len() {
        None
    } else if cell_of(line[k]) is None {
        Some(line[k])
    } else {
        first_bad_char(line, k + 1)
    }
}

/// The first fault of the lines from number `y` on, read in order: a line
/// of the wrong length in UTF-8 bytes, or else a character that stands for
/// no field.
pub open spec fn first_line_error(lines: Seq<Seq<char>>, y: int) -> Option<BoardFileError>
    decreases lines.len() - y,
{
    if y < 0 || y >= lines.len() {
        None
    } else if encode_utf8(lines[y]).len() != Board::SIZE {
        Some(BoardFileError::LineLength { line: (y + 1) as usize })
    } else {
        match first_bad_char(lines[y], 0) {
            Some(c) => Some(BoardFileError::InvalidChar(c)),
            None => first_line_error(lines, y + 1),
        }
    }
}

/// The fields that well-formed lines describe, row by row.
pub open spec fn decoded_fields(lines: Seq<Seq<char>>) -> Seq<Field> {
    Seq::new(
        4,
        |i: int|
            if lines[i / 2][i % 2] == '+' {
                Field::Ship
            } else {
                Field::Empty
            },
    )
}

proof fn lemma_line_end_bounds(s: Seq<char>, i: int)
    requires
        0 <= i <= s.len(),
    ensures
        i <= line_end(s, i) <= s.len(),
        line_end(s, i) < s.len() ==> s[line_end(s, i)] == '\n',
        forall|k: int| i <= k < line_end(s, i) ==> s[k] != '\n',
    decreases s.len() - i,
{
    if i < s.len() && s[i] != '\n' {
        lemma_line_end_bounds(s, i + 1);
    }
}

/// The field that a board-file character stands for.
pub fn cell_from_char(c: char) -> (r: Result<Field, BoardFileError>)
    ensures
        match cell_of(c) {
            Some(f) => r == Ok::<Field, BoardFileError>(f),
            None => r == Err::<Field, BoardFileError>(BoardFileError::InvalidChar(c)),
        },
{
    if c == '.' {
        Ok(Field::Empty)
    } else if c == '+' {
        Ok(Field::Ship)
    } else {
        Err(BoardFileError::InvalidChar(c))
    }
}

/// Start and end, in characters, of each line of `text`.
fn line_spans(text: &str) -> (r: Vec<(usize, usize)>)
    ensures
        r@.len() == text_lines(text@).len(),
        forall|k: int|
            0 <= k < r@.len() ==> #[trigger] r@[k].0 <= r@[k].1 <= text@.len(),
        forall|k: int|
            0 <= k < r@.len() ==> text@.subrange(r@[k].0 as int, r@[k].1 as int) == #[trigger] text_lines(text@)[k],
{
    let ghost s = text@;
    let n = text.unicode_len();
    let mut spans: Vec<(usize, usize)> = Vec::new();
    let mut i: usize = 0;
    while i < n
        invariant
            n == s.len(),
            s == text@,
            i <= n,
            spans@.len() + lines_from(s, i as int).len() == text_lines(s).len(),
            forall|k: int|
                0 <= k < spans@.len() ==> #[trigger] spans@[k].0 <= spans@[k].1 <= s.len(),
            forall|k: int|
                0 <= k < spans@.len() ==> s.subrange(spans@[k].0 as int, spans@[k].1 as int) == #[trigger] text_lines(s)[k],
            forall|k: int|
                0 <= k < lines_from(s, i as int).len() ==> #[trigger] lines_from(s, i as int)[k] == text_lines(
                    s,
                )[spans@.len() + k],
        decreases n - i,
    {
        proof {
            lemma_line_end_bounds(s, i as int);
        }
        let mut j: usize = i;
        while j < n && text.get_char(j) != '\n'
            invariant
                n == s.len(),
                s == text@,
                i <= j <= n,
                i < n,
                line_end(s, i as int) == line_end(s, j as int),
            decreases n - j,
        {
            j = j + 1;
        }
        let end = if j < n && j > i && text.get_char(j - 1) == '\r' {
            j - 1
        } else {
            j
        };
        let ghost old_len = spans@.len();
        let ghost old_spans = spans@;
        proof {
            assert(line_end(s, i as int) == j);
            if j < n {
                assert(lines_from(s, i as int) == seq![line_text(s, i as int, j as int)] + lines_from(s, j + 1));
            } else {
                assert(lines_from(s, i as int) == seq![line_text(s, i as int, j as int)]);
            }
            assert(lines_from(s, i as int)[0] == line_text(s, i as int, j as int));
        }
        spans.push((i, end));
        proof {
            assert(s.subrange(i as int, end as int) =~= line_text(s, i as int, j as int));
            assert(spans@[old_len as int] == (i, end));
            assert(i <= end <= n);
            assert forall|k: int| 0 <= k < spans@.len() implies #[trigger] spans@[k].0 <= spans@[k].1 <= s.len() by {
                if k < old_len {
                    assert(spans@[k] == old_spans[k]);
                }
            }
            assert(s.subrange(i as int, end as int) == text_lines(s)[old_len as int]);
        }
        if j == n {
            i = n;
        } else {
            proof {
                assert forall|k: int| 0 <= k < lines_from(s, j + 1).len() implies #[trigger] lines_from(s, j + 1)[k]
                    == text_lines(s)[spans@.len() + k] by {
                    assert(lines_from(s, j + 1)[k] == lines_from(s, i as int)[k + 1]);
                }
            }
            i = j + 1;
        }
    }
    spans
}

/// Whether the characters from `from` to `to` of `text` all stand for fields.
fn check_chars(text: &str, from: usize, to: usize) -> (r: Result<(), BoardFileError>)
    requires
        from <= to <= text@.len(),
    ensures
        match first_bad_char(text@.subrange(from as int, to as int), 0) {
            Some(c) => r == Err::<(), BoardFileError>(BoardFileError::InvalidChar(c)),
            None => r is Ok,
        },
{
    let ghost line = text@.subrange(from as int, to as int);
    let mut k: usize = from;
    while k < to
        invariant
            from <= k <= to <= text@.len(),
            line == text@.subrange(from as int, to as int),
            first_bad_char(line, 0) == first_bad_char(line, k - from),
        decreases to - k,
    {
        let c = text.get_char(k);
        match cell_from_char(c) {
            Err(e) => {
                assert(line[k - from] == c);
                return Err(e);
            },
            Ok(_) => {},
        }
        assert(first_bad_char(line, k - from) == first_bad_char(line, k - from + 1));
        k = k + 1;
    }
    Ok(())
}

/// Characters that stand for fields take one byte each.
proof fn lemma_field_chars_one_byte(s: Seq<char>)
    requires
        forall|i: int| 0 <= i < s.len() ==> cell_of(#[trigger] s[i]) is Some,
    ensures
        encode_utf8(s).len() == s.len(),
    decreases s.len(),
{
    if s.len() > 0 {
        assert forall|i: int| 0 <= i < s.drop_first().len() implies cell_of(#[trigger] s.drop_first()[i]) is Some by {
            assert(s.drop_first()[i] == s[i + 1]);
        }
        lemma_field_chars_one_byte(s.drop_first());
        assert(cell_of(s[0]) is Some);
    }
}

proof fn lemma_first_bad_char_none(line: Seq<char>, k: int, i: int)
    requires
        0 <= k <= i < line.len(),
        first_bad_char(line, k) is None,
    ensures
        cell_of(line[i]) is Some,
    decreases i - k,
{
    if k < i {
        lemma_first_bad_char_none(line, k + 1, i);
    }
}

/// Reads a board from the text of a board file. In order: a text shorter
/// than a complete board is incomplete; then there must be `SIZE` lines;
/// then each line, in order, must be `SIZE` bytes of `.` and `+`; then
/// the board must hold exactly `NUM_SHIPS` ships.
pub fn parse_board(text: &str) -> (r: Result<Board, BoardFileError>)
    ensures
        text.len() < LOWER_BOARD_FILE_LIMIT ==> r == Err::<Board, BoardFileError>(
            BoardFileError::Incomplete,
        ),
        text.len() >= LOWER_BOARD_FILE_LIMIT && text_lines(text@).len() != Board::SIZE ==> r
            == Err::<Board, BoardFileError>(
            BoardFileError::LineCount { actual: text_lines(text@).len() as usize },
        ),
        text.len() >= LOWER_BOARD_FILE_LIMIT && text_lines(text@).len() == Board::SIZE ==> match first_line_error(text_lines(text@), 0) {
            Some(e) => r == Err::<Board, BoardFileError>(e),
            None => if ship_count(decoded_fields(text_lines(text@))) == Board::NUM_SHIPS {
                r matches Ok(b) && b@ == decoded_fields(text_lines(text@))
            } else {
                r == Err::<Board, BoardFileError>(BoardFileError::ShipCount)
            },
        },
{
    if text.len() < LOWER_BOARD_FILE_LIMIT {
        return Err(BoardFileError::Incomplete);
    }
    let ghost lines = text_lines(text@);
    let spans = line_spans(text);
    if spans.len() != Board::SIZE {
        return Err(BoardFileError::LineCount { actual: spans.len() });
    }
    let mut board = Board::default();
    let mut y: usize = 0;
    while y < Board::SIZE
        invariant
            spans@.len() == Board::SIZE,
            lines == text_lines(text@),
            lines.len() == Board::SIZE,
            text.len() >= LOWER_BOARD_FILE_LIMIT,
            forall|k: int|
                0 <= k < spans@.len() ==> #[trigger] spans@[k].0 <= spans@[k].1 <= text@.len(),
            forall|k: int|
                0 <= k < spans@.len() ==> text@.subrange(spans@[k].0 as int, spans@[k].1 as int) == #[trigger] text_lines(text@)[k],
            y <= Board::SIZE,
            first_line_error(lines, 0) == first_line_error(lines, y as int),
            board@.len() == 4,
            forall|i: int| 0 <= i < 2 * y ==> board@[i] == #[trigger] decoded_fields(lines)[i],
            forall|i: int| 2 * y <= i < 4 ==> board@[i] == Field::Empty,
        decreases Board::SIZE - y,
    {
        let (from, to) = spans[y];
        assert(text@.subrange(from as int, to as int) == lines[y as int]);
        let line = text.substring_char(from, to);
        let line_bytes = line.as_bytes();
        assert(line@ == lines[y as int]);
        if line_bytes.len() != Board::SIZE {
            return Err(BoardFileError::LineLength { line: y + 1 });
        }
        match check_chars(text, from, to) {
            Err(e) => {
                return Err(e);
            },
            Ok(()) => {},
        }
        proof {
            let l = lines[y as int];
            assert forall|i: int| 0 <= i < l.len() implies cell_of(#[trigger] l[i]) is Some by {
                lemma_first_bad_char_none(l, 0, i);
            }
            lemma_field_chars_one_byte(l);
            lemma_first_bad_char_none(l, 0, 0);
            lemma_first_bad_char_none(l, 0, 1);
        }
        let mut x: usize = 0;
        while x < Board::SIZE
            invariant
                from + 2 == to <= text@.len(),
                text@.subrange(from as int, to as int) == lines[y as int],
                lines.len() == Board::SIZE,
                y < Board::SIZE,
                x <= Board::SIZE,
                cell_of(lines[y as int][0]) is Some,
                cell_of(lines[y as int][1]) is Some,
                board@.len() == 4,
                forall|i: int| 0 <= i < 2 * y + x ==> board@[i] == #[trigger] decoded_fields(lines)[i],
                forall|i: int| 2 * y + x <= i < 4 ==> board@[i] == Field::Empty,
            decreases Board::SIZE - x,
        {
            let c = text.get_char(from + x);
            assert(c == lines[y as int][x as int]);
            match cell_from_char(c) {
                Ok(f) => {
                    board.set(x, y, f);
                },
                Err(e) => {
                    return Err(e);
                },
            }
            proof {
                let i = 2 * y + x;
                assert(i / 2 == y && i % 2 == x);
            }
            x = x + 1;
        }
        y = y + 1;
    }
    proof {
        assert(first_line_error(lines, 2) is None);
        assert(board@ =~= decoded_fields(lines));
    }
    if board.validate() {
        Ok(board)
    } else {
        Err(BoardFileError::ShipCount)
    }
}

} // verus!

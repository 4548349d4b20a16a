//! What a line typed at the terminal asks for: a peer to play with, a field
//! to shoot at, or a yes or no.

use vstd::prelude::*;
use crate::state::Board;

verus! {

/// Whether `c` has the Unicode property White_Space.
pub open spec fn is_white_space(c: char) -> bool {
    ('\u{9}' <= c <= '\u{d}') || c == ' ' || c == '\u{85}' || c == '\u{a0}' || c == '\u{1680}'
        || ('\u{2000}' <= c <= '\u{200a}') || c == '\u{2028}' || c == '\u{2029}' || c == '\u{202f}'
        || c == '\u{205f}' || c == '\u{3000}'
}

/// The text without its leading and trailing white space.
pub open spec fn trim_of(s: Seq<char>) -> Seq<char>
    decreases s.len(),
{
    if s.len() > 0 && is_white_space(s[0]) {
        trim_of(s.drop_first())
    } else if s.len() > 0 && is_white_space(s.last()) {
        trim_of(s.drop_last())
    } else {
        s
    }
}

/// Relies on `str::trim`: the text without leading and trailing
/// characters of the Unicode property White_Space.
#[verifier::external_body]
fn trim(s: &str) -> (r: &str)
    ensures
        r@ == trim_of(s@),
{
    s.trim()
}

/// Whether `c` is a decimal digit.
pub open spec fn is_digit(c: char) -> bool {
    '0' <= c <= '9'
}

/// The value of the decimal digits `s`.
pub open spec fn digits_value(s: Seq<char>) -> nat
    decreases s.len(),
{
    if s.len() == 0 {
        0
    } else {
        digits_value(s.drop_last()) * 10 + (s.last() as nat - '0' as nat) as nat
    }
}

/// `s` without one leading `+`.
pub open spec fn unsigned_digits(s: Seq<char>) -> Seq<char> {
    if s.len() > 0 && s[0] == '+' {
        s.skip(1)
    } else {
        s
    }
}

/// Whether every character of `s` is a decimal digit.
pub open spec fn all_digits(s: Seq<char>) -> bool {
    forall|i: int| 0 <= i < s.len() ==> is_digit(#[trigger] s[i])
}

/// The unsigned number that `s` writes: decimal digits, at least one,
/// after an optional `+`, with a value that fits in `usize`.
pub open spec fn usize_of(s: Seq<char>) -> Option<usize> {
    if unsigned_digits(s).len() > 0 && all_digits(unsigned_digits(s)) && digits_value(unsigned_digits(s))
        <= usize::MAX {
        Some(digits_value(unsigned_digits(s)) as usize)
    } else {
        None
    }
}

/// Reads an unsigned decimal number, as `usize`'s `FromStr` does.
pub fn parse_usize(s: &str) -> (r: Option<usize>)
    ensures
        r == usize_of(s@),
{
    let n = s.unicode_len();
    let start: usize = if n > 0 && s.get_char(0) == '+' {
        1
    } else {
        0
    };
    let ghost digits = s@.skip(start as int);
    proof {
        if start == 0 {
            assert(digits =~= s@);
        }
    }
    if start == n {
        return None;
    }
    let mut value: usize = 0;
    let mut i: usize = start;
    while i < n
        invariant
            start <= i <= n,
            start < n,
            start <= 1,
            n == s@.len(),
            digits.len() == n - start,
            start == 1 ==> s@[0] == '+',
            start == 0 ==> digits == s@ && !(s@.len() > 0 && s@[0] == '+'),
            digits == s@.skip(start as int),
            forall|k: int| 0 <= k < i - start ==> is_digit(#[trigger] digits[k]),
            value == digits_value(digits.take(i - start)),
        decreases n - i,
    {
        let c = s.get_char(i);
        assert(digits.take(i - start + 1).drop_last() =~= digits.take(i - start));
        assert(digits[i - start] == c);
        if c < '0' || c > '9' {
            proof {
                assert(unsigned_digits(s@) == digits);
                assert(!is_digit(digits[i - start]));
                assert(!all_digits(digits));
            }
            return None;
        }
        let d = (c as u32 - '0' as u32) as usize;
        if value > (usize::MAX - d) / 10 {
            proof {
                assert(value * 10 + d > usize::MAX) by (nonlinear_arith)
                    requires
                        value > (usize::MAX - d) / 10,
                        d <= 9,
                ;
                assert(unsigned_digits(s@) == digits);
                if all_digits(digits) {
                    lemma_digits_value_grows(digits, i - start + 1, digits.len() as int);
                    assert(digits.take(digits.len() as int) =~= digits);
                }
            }
            return None;
        }
        value = value * 10 + d;
        i = i + 1;
    }
    assert(digits.take(n - start) =~= digits);
    assert(unsigned_digits(s@) == digits);
    assert(all_digits(digits));
    Some(value)
}

/// A longer run of digits has no smaller value.
proof fn lemma_digits_value_grows(s: Seq<char>, a: int, b: int)
    requires
        0 <= a <= b <= s.len(),
        forall|k: int| 0 <= k < b ==> is_digit(#[trigger] s[k]),
    ensures
        digits_value(s.take(a)) <= digits_value(s.take(b)),
    decreases b - a,
{
    if a < b {
        lemma_digits_value_grows(s, a, b - 1);
        assert(s.take(b).drop_last() =~= s.take(b - 1));
    }
}

/// What a line typed while choosing a peer asks for.
#[derive(Debug, Clone, Copy, PartialEq, Eq, Structural)]
pub enum PeerChoice {
    /// `r`: look for peers again.
    Retry,
    /// The peer at this index (from 0) of the list shown.
    Peer(usize),
    /// Anything else: ask again.
    Invalid,
}

/// The choice that the trimmed line `t` makes among `num_peers` peers,
/// listed from 1.
pub open spec fn peer_choice_of(t: Seq<char>, num_peers: usize) -> PeerChoice {
    if t == seq!['r'] {
        PeerChoice::Retry
    } else {
        match usize_of(t) {
            Some(i) => if 0 < i <= num_peers {
                PeerChoice::Peer((i - 1) as usize)
            } else {
                PeerChoice::Invalid
            },
            None => PeerChoice::Invalid,
        }
    }
}

/// The choice that an already trimmed line makes among `num_peers` peers.
pub fn choose_peer_trimmed(t: &str, num_peers: usize) -> (r: PeerChoice)
    ensures
        r == peer_choice_of(t@, num_peers),
{
    if t.unicode_len() == 1 && t.get_char(0) == 'r' {
        assert(t@ =~= seq!['r']);
        return PeerChoice::Retry;
    }
    match parse_usize(t) {
        Some(i) => {
            if i > 0 && i <= num_peers {
                PeerChoice::Peer(i - 1)
            } else {
                PeerChoice::Invalid
            }
        },
        None => PeerChoice::Invalid,
    }
}

/// The choice that a typed line makes among `num_peers` peers.
pub fn choose_peer(line: &str, num_peers: usize) -> (r: PeerChoice)
    ensures
        r == peer_choice_of(trim_of(line@), num_peers),
{
    choose_peer_trimmed(trim(line), num_peers)
}

/// The field, as column and row from 0, that the trimmed line `t` names:
/// a column letter from `a` on, then a row number from 1.
pub open spec fn target_of(t: Seq<char>) -> Option<(usize, usize)> {
    if t.len() > 0 && 'a' <= t[0] && (t[0] as int) < 'a' as int + Board::SIZE {
        match usize_of(t.skip(1)) {
            Some(y) => if 0 < y <= Board::SIZE {
                Some(((t[0] as int - 'a' as int) as usize, (y - 1) as usize))
            } else {
                None
            },
            None => None,
        }
    } else {
        None
    }
}

/// The field that an already trimmed line names, if it names one.
pub fn shot_target_trimmed(t: &str) -> (r: Option<(usize, usize)>)
    ensures
        r == target_of(t@),
        r matches Some((x, y)) ==> x < Board::SIZE && y < Board::SIZE,
{
    let n = t.unicode_len();
    if n == 0 {
        return None;
    }
    let c = t.get_char(0);
    if c < 'a' || (c as u32) >= 'a' as u32 + Board::SIZE as u32 {
        return None;
    }
    let rest = t.substring_char(1, n);
    assert(rest@ =~= t@.skip(1));
    match parse_usize(rest) {
        Some(y) => {
            if y > 0 && y <= Board::SIZE {
                Some(((c as u32 - 'a' as u32) as usize, y - 1))
            } else {
                None
            }
        },
        None => None,
    }
}

/// The field that a typed line names, if it names one.
pub fn shot_target(line: &str) -> (r: Option<(usize, usize)>)
    ensures
        r == target_of(trim_of(line@)),
        r matches Some((x, y)) ==> x < Board::SIZE && y < Board::SIZE,
{
    shot_target_trimmed(trim(line))
}

/// The answer that the trimmed line `t` gives to a yes-or-no question.
pub open spec fn answer_of(t: Seq<char>) -> Option<bool> {
    if t == seq!['y'] {
        Some(true)
    } else if t == seq!['n'] {
        Some(false)
    } else {
        None
    }
}

/// The answer that an already trimmed line gives, if it gives one.
pub fn yes_no_trimmed(t: &str) -> (r: Option<bool>)
    ensures
        r == answer_of(t@),
{
    if t.unicode_len() == 1 {
        let c = t.get_char(0);
        if c == 'y' {
            assert(t@ =~= seq!['y']);
            return Some(true);
        } else if c == 'n' {
            assert(t@ =~= seq!['n']);
            return Some(false);
        }
    }
    None
}

/// The answer that a typed line gives to a yes-or-no question, if any.
pub fn yes_no(line: &str) -> (r: Option<bool>)
    ensures
        r == answer_of(trim_of(line@)),
{
    yes_no_trimmed(trim(line))
}

} // verus!

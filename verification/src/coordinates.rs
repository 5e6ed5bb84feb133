//! Reading a target from a line of text.
//!
//! A line names a target as two unsigned decimal numbers with a comma
//! between them, row first. White space may surround the line and either
//! number. [`coordinates_of`] says what every sequence of characters stands
//! for; [`parse_coordinates`] computes it.

use vstd::prelude::*;
use crate::position::{Position, BOARD_SIZE};

verus! {

/// Why a line of text names no target.
#[derive(Clone, Copy, PartialEq, Eq, Structural, Debug)]
pub enum CoordinateError {
    /// The line is not two unsigned numbers with one comma between them.
    Malformed,
    /// The line names a row or a column that is not on the board.
    OutOfBounds,
}

/// White space as Unicode defines it (the property `White_Space`).
pub open spec fn is_whitespace(c: char) -> bool {
    let n = c as u32;
    ||| 0x09 <= n <= 0x0D
    ||| n == 0x20
    ||| n == 0x85
    ||| n == 0xA0
    ||| n == 0x1680
    ||| 0x2000 <= n <= 0x200A
    ||| n == 0x2028
    ||| n == 0x2029
    ||| n == 0x202F
    ||| n == 0x205F
    ||| n == 0x3000
}

/// `s` without the white space at its start.
pub open spec fn trim_start(s: Seq<char>) -> Seq<char>
    decreases s.len(),
{
    if s.len() > 0 && is_whitespace(s.first()) {
        trim_start(s.drop_first())
    } else {
        s
    }
}

/// `s` without the white space at its end.
pub open spec fn trim_end(s: Seq<char>) -> Seq<char>
    decreases s.len(),
{
    if s.len() > 0 && is_whitespace(s.last()) {
        trim_end(s.drop_last())
    } else {
        s
    }
}

/// `s` without the white space at its start and at its end.
pub open spec fn trim(s: Seq<char>) -> Seq<char> {
    trim_end(trim_start(s))
}

/// One of the ten decimal digits of ASCII.
pub open spec fn is_digit(c: char) -> bool {
    '0' <= c <= '9'
}

/// The number that a decimal digit stands for, and zero for any other
/// character.
pub open spec fn digit_value(c: char) -> nat {
    if is_digit(c) {
        (c as u32 - '0' as u32) as nat
    } else {
        0
    }
}

/// The number that a sequence of decimal digits stands for.
pub open spec fn decimal_value(digits: Seq<char>) -> nat
    decreases digits.len(),
{
    if digits.len() == 0 {
        0
    } else {
        10 * decimal_value(digits.drop_last()) + digit_value(digits.last())
    }
}

/// The digits of a token: the token itself, without a plus sign in front.
pub open spec fn digits_of(token: Seq<char>) -> Seq<char> {
    if token.len() > 0 && token.first() == '+' {
        token.drop_first()
    } else {
        token
    }
}

/// The number that a token stands for, if it is one.
pub open spec fn number_value(token: Seq<char>) -> nat {
    decimal_value(digits_of(token))
}

/// A token is an unsigned number if it is one or more decimal digits, with
/// or without a plus sign in front, and the number fits in a `usize`.
pub open spec fn is_unsigned_number(token: Seq<char>) -> bool {
    &&& digits_of(token).len() > 0
    &&& forall|i: int| 0 <= i < digits_of(token).len() ==> is_digit(#[trigger] digits_of(token)[i])
    &&& number_value(token) <= usize::MAX
}

/// The comma at index `k` is the only comma of `s`.
pub open spec fn is_sole_comma(s: Seq<char>, k: int) -> bool {
    &&& 0 <= k < s.len()
    &&& forall|i: int| 0 <= i < s.len() ==> ((#[trigger] s[i]) == ',' <==> i == k)
}

/// The target that a line of text names, or why it names none.
///
/// The line must hold exactly one comma. What stands before it, without the
/// white space around it, is the row; what stands after it, the column. Both
/// must be unsigned numbers, or the line is malformed; both must be below
/// [`BOARD_SIZE`], or the target is out of bounds.
pub open spec fn coordinates_of(s: Seq<char>) -> Result<Position, CoordinateError> {
    if exists|k: int| is_sole_comma(s, k) {
        let k = choose|k: int| is_sole_comma(s, k);
        let row = trim(s.subrange(0, k));
        let column = trim(s.subrange(k + 1, s.len() as int));
        if !is_unsigned_number(row) || !is_unsigned_number(column) {
            Err(CoordinateError::Malformed)
        } else if number_value(row) >= BOARD_SIZE || number_value(column) >= BOARD_SIZE {
            Err(CoordinateError::OutOfBounds)
        } else {
            Ok(Position { row: number_value(row) as usize, column: number_value(column) as usize })
        }
    } else {
        Err(CoordinateError::Malformed)
    }
}

/// If the first `a` characters of `s` are white space and the next one is
/// not, `trim_start` removes exactly those.
proof fn lemma_trim_start(s: Seq<char>, a: int)
    requires
        0 <= a <= s.len(),
        forall|i: int| 0 <= i < a ==> is_whitespace(#[trigger] s[i]),
        a < s.len() ==> !is_whitespace(s[a]),
    ensures
        trim_start(s) == s.subrange(a, s.len() as int),
    decreases a,
{
    if a == 0 {
        assert(s.subrange(0, s.len() as int) =~= s);
    } else {
        let rest = s.drop_first();
        assert(is_whitespace(s[0]));
        assert forall|i: int| 0 <= i < a - 1 implies is_whitespace(#[trigger] rest[i]) by {
            assert(rest[i] == s[i + 1]);
        }
        lemma_trim_start(rest, a - 1);
        assert(rest.subrange(a - 1, rest.len() as int) =~= s.subrange(a, s.len() as int));
    }
}

/// If the characters of `s` from index `b` on are white space and the one
/// before them is not, `trim_end` removes exactly those.
proof fn lemma_trim_end(s: Seq<char>, b: int)
    requires
        0 <= b <= s.len(),
        forall|i: int| b <= i < s.len() ==> is_whitespace(#[trigger] s[i]),
        0 < b ==> !is_whitespace(s[b - 1]),
    ensures
        trim_end(s) == s.subrange(0, b),
    decreases s.len() - b,
{
    if b == s.len() {
        assert(s.subrange(0, b) =~= s);
    } else {
        let rest = s.drop_last();
        assert(is_whitespace(s[s.len() - 1]));
        lemma_trim_end(rest, b);
        assert(rest.subrange(0, b) =~= s.subrange(0, b));
    }
}

/// The number of a sequence of digits is no less than the number of any
/// sequence that it starts with.
proof fn lemma_decimal_value_grows(digits: Seq<char>, n: int)
    requires
        0 <= n <= digits.len(),
    ensures
        decimal_value(digits.take(n)) <= decimal_value(digits),
    decreases digits.len() - n,
{
    if n == digits.len() {
        assert(digits.take(n) =~= digits);
    } else {
        lemma_decimal_value_grows(digits, n + 1);
        assert(digits.take(n + 1).drop_last() =~= digits.take(n));
    }
}

impl CoordinateError {
    /// A sentence for the player.
    pub fn message(&self) -> (text: &'static str)
        ensures
            text@ == match self {
                CoordinateError::Malformed =>
                    "Invalid input. Please enter coordinates in the form of (row, column)."@,
                CoordinateError::OutOfBounds => "Those coordinates are not on the board."@,
            },
    {
        match self {
            CoordinateError::Malformed => {
                "Invalid input. Please enter coordinates in the form of (row, column)."
            },
            CoordinateError::OutOfBounds => "Those coordinates are not on the board.",
        }
    }
}

/// Whether `c` is white space.
pub fn is_space(c: char) -> (b: bool)
    ensures
        b == is_whitespace(c),
{
    let n: u32 = c as u32;
    (0x09 <= n && n <= 0x0D) || n == 0x20 || n == 0x85 || n == 0xA0 || n == 0x1680 || (0x2000 <= n
        && n <= 0x200A) || n == 0x2028 || n == 0x2029 || n == 0x202F || n == 0x205F || n == 0x3000
}

/// The number that `c` stands for, if it is a decimal digit.
fn digit_of(c: char) -> (digit: Option<usize>)
    ensures
        digit == if is_digit(c) {
            Some(digit_value(c) as usize)
        } else {
            None
        },
{
    let n: u32 = c as u32;
    if 0x30 <= n && n <= 0x39 {
        Some((n - 0x30) as usize)
    } else {
        None
    }
}

/// The characters of `input`.
fn chars_of(input: &str) -> (chars: Vec<char>)
    ensures
        chars@ == input@,
{
    let mut chars: Vec<char> = Vec::new();
    for c in it: input.chars()
        invariant
            chars@ == it.seq().take(it.index() as int),
            it.seq() == input@,
    {
        chars.push(c);
    }
    chars
}

/// The index of the only comma of `chars`, if there is exactly one.
fn find_sole_comma(chars: &Vec<char>) -> (found: Option<usize>)
    ensures
        match found {
            Some(k) => is_sole_comma(chars@, k as int),
            None => forall|k: int| !is_sole_comma(chars@, k),
        },
{
    let mut found: Option<usize> = None;
    let mut i: usize = 0;
    while i < chars.len()
        invariant
            i <= chars.len(),
            match found {
                Some(k) => k < i && forall|j: int|
                    0 <= j < i ==> ((#[trigger] chars@[j]) == ',' <==> j == k),
                None => forall|j: int| 0 <= j < i ==> (#[trigger] chars@[j]) != ',',
            },
        decreases chars.len() - i,
    {
        if chars[i] == ',' {
            if let Some(first) = found {
                assert forall|k: int| !is_sole_comma(chars@, k) by {
                    if is_sole_comma(chars@, k) {
                        assert(chars@[first as int] == ',');
                        assert(chars@[i as int] == ',');
                    }
                }
                return None;
            }
            found = Some(i);
        }
        i += 1;
    }
    proof {
        if found is None {
            assert forall|k: int| !is_sole_comma(chars@, k) by {
                if is_sole_comma(chars@, k) {
                    assert(chars@[k] == ',');
                }
            }
        }
    }
    found
}

/// The number that the characters of `chars` from `from` up to `to` stand
/// for, without the white space around them, if they stand for one.
fn parse_number(chars: &Vec<char>, from: usize, to: usize) -> (number: Option<usize>)
    requires
        from <= to <= chars.len(),
    ensures
        number == if is_unsigned_number(trim(chars@.subrange(from as int, to as int))) {
            Some(number_value(trim(chars@.subrange(from as int, to as int))) as usize)
        } else {
            None
        },
{
    let ghost field = chars@.subrange(from as int, to as int);
    let mut start: usize = from;
    while start < to && is_space(chars[start])
        invariant
            from <= start <= to <= chars.len(),
            forall|i: int| from <= i < start ==> is_whitespace(#[trigger] chars@[i]),
        decreases to - start,
    {
        start += 1;
    }
    let mut end: usize = to;
    while end > start && is_space(chars[end - 1])
        invariant
            start <= end <= to <= chars.len(),
            forall|i: int| end <= i < to ==> is_whitespace(#[trigger] chars@[i]),
        decreases end,
    {
        end -= 1;
    }
    let ghost token = chars@.subrange(start as int, end as int);
    proof {
        lemma_trim_start(field, start - from);
        let headless = field.subrange(start - from, field.len() as int);
        assert(headless =~= chars@.subrange(start as int, to as int));
        lemma_trim_end(headless, end - start);
        assert(headless.subrange(0, end - start) =~= token);
        assert(trim(field) == token);
    }
    let mut i: usize = start;
    if i < end && chars[i] == '+' {
        i += 1;
    }
    let ghost digits = chars@.subrange(i as int, end as int);
    assert(digits =~= digits_of(token));
    if i == end {
        return None;
    }
    let first: usize = i;
    let mut value: usize = 0;
    while i < end
        invariant
            from <= to <= chars.len(),
            first <= i <= end <= chars.len(),
            digits == chars@.subrange(first as int, end as int),
            digits == digits_of(trim(chars@.subrange(from as int, to as int))),
            forall|j: int| 0 <= j < i - first ==> is_digit(#[trigger] digits[j]),
            value == decimal_value(digits.take(i - first)),
        decreases end - i,
    {
        assert(chars@[i as int] == digits[i - first]);
        let digit = match digit_of(chars[i]) {
            Some(digit) => digit,
            None => {
                return None;
            },
        };
        proof {
            assert(digits.take(i - first + 1).drop_last() =~= digits.take(i - first));
            assert(decimal_value(digits.take(i - first + 1)) == 10 * value + digit);
            lemma_decimal_value_grows(digits, i - first + 1);
        }
        let tens = match value.checked_mul(10) {
            Some(tens) => tens,
            None => {
                return None;
            },
        };
        value = match tens.checked_add(digit) {
            Some(sum) => sum,
            None => {
                return None;
            },
        };
        i += 1;
    }
    assert(digits.take(i - first) =~= digits);
    Some(value)
}

/// Reads a target from a line of text: `"3, 4"` is row 3, column 4.
pub fn parse_coordinates(input: &str) -> (result: Result<Position, CoordinateError>)
    ensures
        result == coordinates_of(input@),
        result matches Ok(position) ==> position.in_bounds(),
{
    let chars = chars_of(input);
    let comma = match find_sole_comma(&chars) {
        Some(comma) => comma,
        None => {
            return Err(CoordinateError::Malformed);
        },
    };
    proof {
        let k = choose|k: int| is_sole_comma(chars@, k);
        assert(chars@[comma as int] == ',');
        assert(k == comma);
    }
    let row = parse_number(&chars, 0, comma);
    let column = parse_number(&chars, comma + 1, chars.len());
    match (row, column) {
        (Some(row), Some(column)) => {
            if row < BOARD_SIZE && column < BOARD_SIZE {
                Ok(Position { row, column })
            } else {
                Err(CoordinateError::OutOfBounds)
            }
        },
        _ => Err(CoordinateError::Malformed),
    }
}

} // verus!

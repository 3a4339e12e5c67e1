//! Working with text: writing numbers in decimal, finding a character,
//! trimming white space and reading integers.

use vstd::prelude::*;
use vstd::string::StrSliceExecFns;

verus! {

/// `String::push` of the standard library appends one character to the end
/// of the string and changes nothing else.
pub assume_specification[ String::push ](text: &mut String, ch: char)
    ensures
        final(text)@ == old(text)@.push(ch),
;

/// The character that stands for a digit below ten.
pub open spec fn digit_char(digit: nat) -> char {
    (48 + digit) as char
}

/// The decimal notation of `n`: no sign, no leading zero except for zero itself.
pub open spec fn decimal(n: nat) -> Seq<char>
    decreases n,
{
    if n < 10 {
        seq![digit_char(n)]
    } else {
        decimal(n / 10).push(digit_char(n % 10))
    }
}

/// Appends the decimal notation of `n` to `text`.
pub fn append_decimal(text: &mut String, n: u64)
    ensures
        final(text)@ == old(text)@ + decimal(n as nat),
    decreases n,
{
    if n >= 10 {
        append_decimal(text, n / 10);
    }
    let digit: u8 = (n % 10) as u8;
    text.push((48u8 + digit) as char);
    assert(text@ =~= old(text)@ + decimal(n as nat));
}

/// The position of the first `wanted` in `text`, counted in characters.
pub fn find_char(text: &str, wanted: char) -> (found: Option<usize>)
    ensures
        match found {
            Some(at) => text@.index_of_first(wanted) == Some(at as int),
            None => text@.index_of_first(wanted) is None,
        },
{
    let count = text.unicode_len();
    let mut at: usize = 0;
    for c in it: text.chars()
        invariant
            it.seq() == text@,
            at == it.index(),
            text@.len() == count,
            forall|j: int| 0 <= j < at ==> text@[j] != wanted,
    {
        if c == wanted {
            proof {
                text@.index_of_first_ensures(wanted);
            }
            return Some(at);
        }
        at += 1;
    }
    proof {
        text@.index_of_first_ensures(wanted);
    }
    None
}

/// Whether `c` is white space: one of the characters U+0009 to U+000D,
/// U+0020, U+0085, U+00A0, U+1680, U+2000 to U+200A, U+2028, U+2029, U+202F,
/// U+205F and U+3000.
pub open spec fn white_space(c: char) -> bool {
    let code = c as u32;
    ||| 0x09 <= code <= 0x0D
    ||| code == 0x20
    ||| code == 0x85
    ||| code == 0xA0
    ||| code == 0x1680
    ||| 0x2000 <= code <= 0x200A
    ||| code == 0x2028
    ||| code == 0x2029
    ||| code == 0x202F
    ||| code == 0x205F
    ||| code == 0x3000
}

/// `text` without the white space at its start.
pub open spec fn without_leading_space(text: Seq<char>) -> Seq<char>
    decreases text.len(),
{
    if text.len() > 0 && white_space(text.first()) {
        without_leading_space(text.drop_first())
    } else {
        text
    }
}

/// `text` without the white space at its end.
pub open spec fn without_trailing_space(text: Seq<char>) -> Seq<char>
    decreases text.len(),
{
    if text.len() > 0 && white_space(text.last()) {
        without_trailing_space(text.drop_last())
    } else {
        text
    }
}

/// `text` without the white space at its start and at its end.
pub open spec fn trimmed(text: Seq<char>) -> Seq<char> {
    without_trailing_space(without_leading_space(text))
}

/// Where the first `start` characters are white space and the next one is
/// not, dropping the leading white space drops exactly those.
proof fn lemma_leading_space(text: Seq<char>, start: int)
    requires
        0 <= start <= text.len(),
        forall|i: int| 0 <= i < start ==> white_space(#[trigger] text[i]),
        start < text.len() ==> !white_space(text[start]),
    ensures
        without_leading_space(text) == text.skip(start),
    decreases start,
{
    if start == 0 {
        assert(text.skip(0) =~= text);
    } else {
        let rest = text.drop_first();
        assert forall|i: int| 0 <= i < start - 1 implies white_space(#[trigger] rest[i]) by {
            assert(rest[i] == text[i + 1]);
        }
        lemma_leading_space(rest, start - 1);
        assert(rest.skip(start - 1) =~= text.skip(start));
    }
}

/// Where the characters from `end` on are white space and the one before
/// is not, dropping the trailing white space drops exactly those.
proof fn lemma_trailing_space(text: Seq<char>, end: int)
    requires
        0 <= end <= text.len(),
        forall|i: int| end <= i < text.len() ==> white_space(#[trigger] text[i]),
        0 < end ==> !white_space(text[end - 1]),
    ensures
        without_trailing_space(text) == text.take(end),
    decreases text.len() - end,
{
    if end == text.len() {
        assert(text.take(end) =~= text);
    } else {
        let rest = text.drop_last();
        lemma_trailing_space(rest, end);
        assert(rest.take(end) =~= text.take(end));
    }
}

/// Whether `c` is white space.
pub fn is_whitespace(c: char) -> (blank: bool)
    ensures
        blank == white_space(c),
{
    let code = c as u32;
    (0x09 <= code && code <= 0x0D) || code == 0x20 || code == 0x85 || code == 0xA0 || code
        == 0x1680 || (0x2000 <= code && code <= 0x200A) || code == 0x2028 || code == 0x2029
        || code == 0x202F || code == 0x205F || code == 0x3000
}

/// `text` without the white space at its start and at its end.
pub fn trim(text: &str) -> (inner: &str)
    ensures
        inner@ == trimmed(text@),
{
    let count = text.unicode_len();
    let mut start: usize = 0;
    let mut end: usize = 0;
    let mut at: usize = 0;
    let mut seen = false;
    for c in it: text.chars()
        invariant
            it.seq() == text@,
            at == it.index(),
            text@.len() == count,
            start <= end <= at,
            !seen ==> start == at && end == at,
            forall|i: int| 0 <= i < start ==> white_space(#[trigger] text@[i]),
            forall|i: int| end <= i < at ==> white_space(#[trigger] text@[i]),
            seen ==> start < end && !white_space(text@[start as int]) && !white_space(
                text@[end - 1],
            ),
    {
        if is_whitespace(c) {
            if !seen {
                start = at + 1;
                end = at + 1;
            }
        } else {
            if !seen {
                seen = true;
                start = at;
            }
            end = at + 1;
        }
        at += 1;
    }
    proof {
        let core = text@.skip(start as int);
        lemma_leading_space(text@, start as int);
        assert forall|i: int| end - start <= i < core.len() implies white_space(
            #[trigger] core[i],
        ) by {
            assert(core[i] == text@[i + start]);
        }
        if end > start {
            assert(core[end - start - 1] == text@[end - 1]);
        }
        lemma_trailing_space(core, end - start);
        assert(core.take(end - start) =~= text@.subrange(start as int, end as int));
    }
    text.substring_char(start, end)
}

/// Whether `c` is one of the digits `0` to `9`.
pub open spec fn is_digit(c: char) -> bool {
    48 <= c as u32 <= 57
}

/// Whether `text` consists of digits only.
pub open spec fn all_digits(text: Seq<char>) -> bool {
    forall|i: int| 0 <= i < text.len() ==> is_digit(#[trigger] text[i])
}

/// The number that a sequence of digits writes in decimal; zero for no digits.
pub open spec fn digits_value(digits: Seq<char>) -> int
    decreases digits.len(),
{
    if digits.len() == 0 {
        0
    } else {
        digits_value(digits.drop_last()) * 10 + (digits.last() as u32 - 48)
    }
}

/// The integer that `text` writes: an optional sign `+` or `-` followed by
/// one or more digits. Any other text writes no integer.
pub open spec fn written_integer(text: Seq<char>) -> Option<int> {
    let signed = text.len() > 0 && (text[0] == '-' || text[0] == '+');
    let digits = if signed {
        text.drop_first()
    } else {
        text
    };
    if digits.len() > 0 && all_digits(digits) {
        if text[0] == '-' {
            Some(-digits_value(digits))
        } else {
            Some(digits_value(digits))
        }
    } else {
        None
    }
}

/// The `i32` that `text` writes, if it writes an integer of that range.
pub open spec fn written_i32(text: Seq<char>) -> Option<i32> {
    match written_integer(text) {
        Some(value) => if i32::MIN <= value <= i32::MAX {
            Some(value as i32)
        } else {
            None
        },
        None => None,
    }
}

/// More digits never write a smaller number.
proof fn lemma_digits_value_grows(digits: Seq<char>, shorter: int)
    requires
        all_digits(digits),
        0 <= shorter <= digits.len(),
    ensures
        0 <= digits_value(digits.take(shorter)) <= digits_value(digits),
    decreases digits.len() - shorter,
{
    if shorter == digits.len() {
        assert(digits.take(shorter) =~= digits);
        lemma_digits_value_positive(digits);
    } else {
        let init = digits.drop_last();
        assert(is_digit(digits[digits.len() - 1]));
        assert forall|i: int| 0 <= i < init.len() implies is_digit(#[trigger] init[i]) by {
            assert(init[i] == digits[i]);
        }
        lemma_digits_value_grows(init, shorter);
        assert(init.take(shorter) =~= digits.take(shorter));
    }
}

/// Digits write a number that is not negative.
proof fn lemma_digits_value_positive(digits: Seq<char>)
    requires
        all_digits(digits),
    ensures
        0 <= digits_value(digits),
    decreases digits.len(),
{
    if digits.len() > 0 {
        let init = digits.drop_last();
        assert(is_digit(digits[digits.len() - 1]));
        assert forall|i: int| 0 <= i < init.len() implies is_digit(#[trigger] init[i]) by {
            assert(init[i] == digits[i]);
        }
        lemma_digits_value_positive(init);
    }
}

/// Reads `text` as a decimal integer: an optional sign `+` or `-` followed by
/// one or more digits, with nothing before, between or after.
///
/// Absent where `text` is not of that form, and where the integer does not
/// fit in an `i32`.
pub fn parse_i32(text: &str) -> (number: Option<i32>)
    ensures
        number == written_i32(text@),
{
    let count = text.unicode_len();
    if count == 0 {
        return None;
    }
    let first = text.get_char(0);
    let negative = first == '-';
    let digits = if first == '-' || first == '+' {
        text.substring_char(1, count)
    } else {
        text
    };
    proof {
        assert(text@.drop_first() =~= text@.subrange(1, count as int));
    }
    let mut value: i64 = 0;
    let mut empty = true;
    for c in it: digits.chars()
        invariant
            it.seq() == digits@,
            text@.len() > 0,
            negative == (text@[0] == '-'),
            digits@ == (if text@[0] == '-' || text@[0] == '+' {
                text@.drop_first()
            } else {
                text@
            }),
            empty == (it.index() == 0),
            all_digits(digits@.take(it.index())),
            value == digits_value(digits@.take(it.index())),
            0 <= value <= 2147483648,
    {
        let ghost read = digits@.take(it.index());
        let ghost longer = digits@.take(it.index() + 1);
        proof {
            assert(longer =~= read.push(c));
            assert(longer.drop_last() =~= read);
        }
        let code = c as u32;
        if code < 48 || code > 57 {
            proof {
                assert(!is_digit(digits@[it.index()]));
            }
            return None;
        }
        value = value * 10 + (code - 48) as i64;
        empty = false;
        if value > 2147483648 {
            proof {
                if all_digits(digits@) {
                    lemma_digits_value_grows(digits@, it.index() + 1);
                }
            }
            return None;
        }
    }
    proof {
        assert(digits@.take(digits@.len() as int) =~= digits@);
    }
    if empty {
        None
    } else if negative {
        Some((-value) as i32)
    } else if value > 2147483647 {
        None
    } else {
        Some(value as i32)
    }
}

} // verus!

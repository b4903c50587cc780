//! Text: whole numbers, trimming, and decoding of bytes.
use vstd::prelude::*;
use vstd::string::*;

verus! {

/// What an optional text holds.
pub open spec fn text_of(text: Option<String>) -> Option<Seq<char>> {
    match text {
        Some(text) => Some(text@),
        None => None,
    }
}

/// An ASCII digit.
pub open spec fn is_digit(c: char) -> bool {
    '0' <= c <= '9'
}

/// The number that ASCII digits spell, most significant first.
pub open spec fn digits_value(digits: Seq<char>) -> nat
    decreases digits.len(),
{
    if digits.len() == 0 {
        0
    } else {
        10 * digits_value(digits.drop_last()) + (digits.last() as nat - '0' as nat) as nat
    }
}

/// The text without the plus sign that may lead it.
pub open spec fn unsigned(text: Seq<char>) -> Seq<char> {
    if text.len() > 0 && text[0] == '+' {
        text.drop_first()
    } else {
        text
    }
}

/// The whole number that a text spells: at least one ASCII digit and nothing else,
/// but for a plus sign that may lead them, and a value that fits in a `u64`.
pub open spec fn whole_number(text: Seq<char>) -> Option<u64> {
    let digits = unsigned(text);
    if digits.len() > 0 && (forall|i: int| 0 <= i < digits.len() ==> is_digit(#[trigger] digits[i]))
        && digits_value(digits) <= u64::MAX {
        Some(digits_value(digits) as u64)
    } else {
        None
    }
}

/// More digits never spell a smaller number.
proof fn lemma_digits_value_grows(digits: Seq<char>, upto: int)
    requires
        0 <= upto <= digits.len(),
        forall|i: int| 0 <= i < digits.len() ==> is_digit(#[trigger] digits[i]),
    ensures
        digits_value(digits.take(upto)) <= digits_value(digits),
    decreases digits.len() - upto,
{
    if upto < digits.len() {
        lemma_digits_value_grows(digits, upto + 1);
        assert(digits.take(upto + 1).drop_last() =~= digits.take(upto));
        assert(is_digit(digits[upto]));
    } else {
        assert(digits.take(upto) =~= digits);
    }
}

/// Reads a whole number.
pub fn parse_whole_number(text: &str) -> (number: Option<u64>)
    ensures
        number == whole_number(text@),
{
    let length: usize = text.unicode_len();
    let start: usize = if length > 0 && text.get_char(0) == '+' {
        1
    } else {
        0
    };
    let ghost digits = unsigned(text@);
    if start == length {
        return None;
    }
    let mut value: u64 = 0;
    let mut at: usize = start;
    assert(digits.take(0) =~= Seq::<char>::empty());
    while at < length
        invariant
            start <= at <= length,
            length == text@.len(),
            digits == unsigned(text@),
            digits =~= text@.skip(start as int),
            value == digits_value(digits.take(at - start)),
            forall|i: int| 0 <= i < at - start ==> is_digit(#[trigger] digits[i]),
        decreases length - at,
    {
        let c = text.get_char(at);
        assert(digits[at - start] == c);
        if c < '0' || c > '9' {
            return None;
        }
        let digit: u64 = c as u64 - '0' as u64;
        assert(digits.take(at + 1 - start).drop_last() =~= digits.take(at - start));
        assert(digits_value(digits.take(at + 1 - start)) == 10 * value + digit);
        if value > (u64::MAX - digit) / 10 {
            proof {
                if forall|i: int| 0 <= i < digits.len() ==> is_digit(#[trigger] digits[i]) {
                    lemma_digits_value_grows(digits, at + 1 - start);
                }
            }
            return None;
        }
        value = value * 10 + digit;
        at = at + 1;
    }
    assert(digits.take(at - start) =~= digits);
    Some(value)
}

/// The text without the slashes at its end.
pub open spec fn without_trailing_slashes(text: Seq<char>) -> Seq<char>
    decreases text.len(),
{
    if text.len() > 0 && text.last() == '/' {
        without_trailing_slashes(text.drop_last())
    } else {
        text
    }
}

/// Removes every slash at the end of a text.
pub fn trim_trailing_slashes(text: &str) -> (trimmed: String)
    ensures
        trimmed@ == without_trailing_slashes(text@),
{
    let mut end: usize = text.unicode_len();
    assert(text@.take(end as int) =~= text@);
    while end > 0 && text.get_char(end - 1) == '/'
        invariant
            end <= text@.len(),
            without_trailing_slashes(text@) == without_trailing_slashes(text@.take(end as int)),
        decreases end,
    {
        assert(text@.take(end as int).drop_last() =~= text@.take(end - 1));
        end = end - 1;
    }
    text.substring_char(0, end).to_owned()
}

/// What is left ends in no slash, and slashes alone were removed.
pub proof fn law_trimming_removes_trailing_slashes(text: Seq<char>)
    ensures
        ({
            let kept = without_trailing_slashes(text);
            &&& kept.len() > 0 ==> kept.last() != '/'
            &&& kept.len() <= text.len()
            &&& kept == text.take(kept.len() as int)
            &&& forall|i: int| kept.len() <= i < text.len() ==> #[trigger] text[i] == '/'
        }),
    decreases text.len(),
{
    if text.len() > 0 && text.last() == '/' {
        law_trimming_removes_trailing_slashes(text.drop_last());
        let kept = without_trailing_slashes(text);
        assert(text.drop_last().take(kept.len() as int) =~= text.take(kept.len() as int));
        assert forall|i: int| kept.len() <= i < text.len() implies #[trigger] text[i] == '/' by {
            if i < text.len() - 1 {
                assert(text.drop_last()[i] == '/');
            }
        }
    } else {
        assert(text.take(text.len() as int) =~= text);
    }
}

/// A character with the Unicode property White_Space.
pub open spec fn is_white_space(c: char) -> bool {
    ||| 0x9 <= c as u32 <= 0xd
    ||| c as u32 == 0x20
    ||| c as u32 == 0x85
    ||| c as u32 == 0xa0
    ||| c as u32 == 0x1680
    ||| 0x2000 <= c as u32 <= 0x200a
    ||| c as u32 == 0x2028
    ||| c as u32 == 0x2029
    ||| c as u32 == 0x202f
    ||| c as u32 == 0x205f
    ||| c as u32 == 0x3000
}

/// The text without the white space that leads it.
pub open spec fn trimmed_start(text: Seq<char>) -> Seq<char>
    decreases text.len(),
{
    if text.len() > 0 && is_white_space(text[0]) {
        trimmed_start(text.drop_first())
    } else {
        text
    }
}

/// The text without the white space at its end.
pub open spec fn trimmed_end(text: Seq<char>) -> Seq<char>
    decreases text.len(),
{
    if text.len() > 0 && is_white_space(text.last()) {
        trimmed_end(text.drop_last())
    } else {
        text
    }
}

/// The text without the white space around it.
pub open spec fn trimmed(text: Seq<char>) -> Seq<char> {
    trimmed_end(trimmed_start(text))
}

/// Of white space alone nothing is left.
pub proof fn lemma_blank_is_trimmed_to_nothing(text: Seq<char>)
    requires
        forall|i: int| 0 <= i < text.len() ==> is_white_space(#[trigger] text[i]),
    ensures
        trimmed(text).len() == 0,
    decreases text.len(),
{
    if text.len() > 0 {
        lemma_blank_is_trimmed_to_nothing(text.drop_first());
    }
}

/// Whether a character has the Unicode property White_Space.
fn has_white_space(c: char) -> (white: bool)
    ensures
        white == is_white_space(c),
{
    let code: u32 = c as u32;
    (0x9 <= code && code <= 0xd) || code == 0x20 || code == 0x85 || code == 0xa0 || code == 0x1680
        || (0x2000 <= code && code <= 0x200a) || code == 0x2028 || code == 0x2029 || code == 0x202f
        || code == 0x205f || code == 0x3000
}

/// The text without the white space around it.
pub fn trim(text: &str) -> (inner: &str)
    ensures
        inner@ == trimmed(text@),
{
    let length: usize = text.unicode_len();
    let mut start: usize = 0;
    assert(text@.skip(0) =~= text@);
    while start < length && has_white_space(text.get_char(start))
        invariant
            start <= length == text@.len(),
            trimmed_start(text@) == trimmed_start(text@.skip(start as int)),
        decreases length - start,
    {
        assert(text@.skip(start as int).drop_first() =~= text@.skip(start + 1));
        start = start + 1;
    }
    let ghost rest = text@.skip(start as int);
    let mut end: usize = length;
    assert(trimmed_start(text@) == rest);
    assert(text@.subrange(start as int, end as int) =~= rest);
    while end > start && has_white_space(text.get_char(end - 1))
        invariant
            start <= end <= text@.len(),
            trimmed_end(rest) == trimmed_end(text@.subrange(start as int, end as int)),
        decreases end,
    {
        assert(text@.subrange(start as int, end as int).drop_last() =~= text@.subrange(
            start as int,
            end - 1,
        ));
        end = end - 1;
    }
    text.substring_char(start, end)
}

/// Texts one after the other are encoded one after the other.
pub proof fn lemma_encoding_concatenates(first: Seq<char>, second: Seq<char>)
    ensures
        vstd::utf8::encode_utf8(first + second) == vstd::utf8::encode_utf8(first)
            + vstd::utf8::encode_utf8(second),
    decreases first.len(),
{
    if first.len() == 0 {
        assert(first + second =~= second);
        assert(vstd::utf8::encode_utf8(first) + vstd::utf8::encode_utf8(second)
            =~= vstd::utf8::encode_utf8(second));
    } else {
        lemma_encoding_concatenates(first.drop_first(), second);
        assert((first + second).drop_first() =~= first.drop_first() + second);
        assert(vstd::utf8::encode_utf8(first + second) =~= vstd::utf8::encode_utf8(first)
            + vstd::utf8::encode_utf8(second));
    }
}

/// The text that [`String::from_utf8_lossy`] makes of bytes.
pub uninterp spec fn utf8_lossy(bytes: Seq<u8>) -> Seq<char>;

/// Calls [`String::from_utf8_lossy`]: bytes that are valid UTF-8 become the text
/// that they encode; of others, the parts that are not valid are replaced.
#[verifier::external_body]
pub(crate) fn decode_lossy(bytes: &[u8]) -> (text: String)
    ensures
        text@ == utf8_lossy(bytes@),
        vstd::utf8::valid_utf8(bytes@) ==> text@ == vstd::utf8::decode_utf8(bytes@),
{
    String::from_utf8_lossy(bytes).into_owned()
}

/// A digit spells its value.
pub proof fn law_a_digit_spells_its_value(digit: char)
    requires
        '0' <= digit <= '9',
    ensures
        whole_number(seq![digit]) == Some((digit as u32 - 48) as u64),
{
    let text = seq![digit];
    assert(text.drop_last() =~= Seq::empty());
    assert(digits_value(text.drop_last()) == 0);
    assert(forall|i: int| 0 <= i < text.len() ==> is_digit(#[trigger] text[i]));
}

/// One more digit makes a number ten times as large and adds its value, unless that
/// no longer fits in a `u64`.
pub proof fn law_one_more_digit_counts_by_ten(text: Seq<char>, number: u64, digit: char)
    requires
        whole_number(text) == Some(number),
        '0' <= digit <= '9',
    ensures
        10 * number + (digit as u32 - 48) <= u64::MAX ==> whole_number(text.push(digit)) == Some(
            (10 * number + (digit as u32 - 48)) as u64,
        ),
        10 * number + (digit as u32 - 48) > u64::MAX ==> whole_number(text.push(digit)) is None,
{
    let digits = unsigned(text);
    let more = digits.push(digit);
    assert(text.len() > 0);
    assert(unsigned(text.push(digit)) =~= more);
    assert(more.drop_last() =~= digits);
    assert forall|i: int| 0 <= i < more.len() implies is_digit(#[trigger] more[i]) by {
        if i < digits.len() {
            assert(is_digit(digits[i]));
        }
    }
}

/// A text that is no number does not become one by a digit at its end, unless nothing
/// or a plus sign alone was there.
pub proof fn law_one_more_digit_mends_nothing(text: Seq<char>, digit: char)
    requires
        whole_number(text) is None,
        text.len() > 0,
        text != seq!['+'],
    ensures
        whole_number(text.push(digit)) is None,
{
    let digits = unsigned(text);
    let more = digits.push(digit);
    assert(unsigned(text.push(digit)) =~= more);
    assert(more.drop_last() =~= digits);
    if digits.len() == 0 {
        assert(text =~= seq!['+']);
    }
    if whole_number(text.push(digit)) is Some {
        assert forall|i: int| 0 <= i < digits.len() implies is_digit(#[trigger] digits[i]) by {
            assert(is_digit(more[i]));
        }
        assert(is_digit(more[digits.len() as int]));
    }
}

/// Nothing is no number, nor is a plus sign alone, nor a text with any character but
/// digits and a plus sign that leads them.
pub proof fn law_only_digits_spell_a_number(text: Seq<char>)
    ensures
        whole_number(Seq::empty()) is None,
        whole_number(seq!['+']) is None,
        forall|i: int|
            0 <= i < text.len() && !('0' <= #[trigger] text[i] <= '9') && !(i == 0 && text[0]
                == '+') ==> whole_number(text) is None,
{
    assert(unsigned(seq!['+']) =~= Seq::empty());
    assert forall|i: int|
        0 <= i < text.len() && !('0' <= #[trigger] text[i] <= '9') && !(i == 0 && text[0]
            == '+') implies whole_number(text) is None by {
        let at = if text[0] == '+' {
            i - 1
        } else {
            i
        };
        assert(unsigned(text)[at] == text[i]);
        assert(!is_digit(unsigned(text)[at]));
    }
}

/// A plus sign before a number makes no difference.
pub proof fn law_a_leading_plus_makes_no_difference(text: Seq<char>)
    requires
        text.len() > 0,
        text[0] != '+',
    ensures
        whole_number(seq!['+'] + text) == whole_number(text),
{
    assert(unsigned(seq!['+'] + text) =~= text);
}

/// What is left after trimming is a stretch of the text that neither begins nor ends
/// with white space, and white space alone was removed around it.
pub proof fn law_trimming_removes_the_white_space_around(text: Seq<char>)
    ensures
        trimmed(text).len() > 0 ==> !is_white_space(trimmed(text)[0]) && !is_white_space(
            trimmed(text).last(),
        ),
        exists|start: int, end: int|
            0 <= start <= end <= text.len() && trimmed(text) == #[trigger] text.subrange(start, end)
                && forall|i: int|
                0 <= i < start || end <= i < text.len() ==> is_white_space(#[trigger] text[i]),
{
    let start = lemma_start_is_cut(text);
    let rest = trimmed_start(text);
    let kept = lemma_end_is_cut(rest);
    let end = start + kept;
    assert(trimmed(text) =~= text.subrange(start, end));
    assert forall|i: int| 0 <= i < start || end <= i < text.len() implies is_white_space(
        #[trigger] text[i],
    ) by {
        if i >= end {
            assert(rest[i - start] == text[i]);
        }
    }
}

/// White space alone is removed at the start.
proof fn lemma_start_is_cut(text: Seq<char>) -> (start: int)
    ensures
        0 <= start <= text.len(),
        trimmed_start(text) == text.skip(start),
        forall|i: int| 0 <= i < start ==> is_white_space(#[trigger] text[i]),
        start < text.len() ==> !is_white_space(text[start]),
    decreases text.len(),
{
    if text.len() > 0 && is_white_space(text[0]) {
        let later = text.drop_first();
        let start = lemma_start_is_cut(later);
        assert(later.skip(start) =~= text.skip(start + 1));
        assert forall|i: int| 0 <= i < start + 1 implies is_white_space(#[trigger] text[i]) by {
            if i > 0 {
                assert(is_white_space(later[i - 1]));
            }
        }
        start + 1
    } else {
        assert(text.skip(0) =~= text);
        0
    }
}

/// White space alone is removed at the end.
proof fn lemma_end_is_cut(text: Seq<char>) -> (end: int)
    ensures
        0 <= end <= text.len(),
        trimmed_end(text) == text.take(end),
        forall|i: int| end <= i < text.len() ==> is_white_space(#[trigger] text[i]),
        end > 0 ==> !is_white_space(text[end - 1]),
    decreases text.len(),
{
    if text.len() > 0 && is_white_space(text.last()) {
        let shorter = text.drop_last();
        let end = lemma_end_is_cut(shorter);
        assert(shorter.take(end) =~= text.take(end));
        assert forall|i: int| end <= i < text.len() implies is_white_space(#[trigger] text[i]) by {
            if i < shorter.len() {
                assert(is_white_space(shorter[i]));
            }
        }
        end
    } else {
        assert(text.take(text.len() as int) =~= text);
        text.len() as int
    }
}


/// White space is the space, the tab, what breaks lines and pages, and the spaces of
/// other widths and scripts; letters, digits and marks are none.
pub proof fn law_white_space_is_blank(c: char)
    ensures
        is_white_space(c) <==> c == ' ' || '\t' <= c <= '\r' || c == '\u{85}' || c == '\u{a0}' || c
            == '\u{1680}' || '\u{2000}' <= c <= '\u{200a}' || c == '\u{2028}' || c == '\u{2029}'
            || c == '\u{202f}' || c == '\u{205f}' || c == '\u{3000}',
        '!' <= c <= '~' ==> !is_white_space(c),
{
}

} // verus!

//! Decimal numbers as text.

use vstd::prelude::*;

use crate::text::{characters, collect};

verus! {

/// The character of a digit.
pub open spec fn digit(value: nat) -> char {
    ('0' as nat + value) as char
}

/// `value` in decimal, without leading zeros.
pub open spec fn decimal(value: nat) -> Seq<char>
    decreases value,
{
    if value < 10 {
        seq![digit(value)]
    } else {
        decimal(value / 10).push(digit(value % 10))
    }
}

/// The character is a decimal digit.
pub open spec fn is_digit(character: char) -> bool {
    '0' <= character && character <= '9'
}

/// All characters are decimal digits.
pub open spec fn all_digits(digits: Seq<char>) -> bool {
    forall|i: int| 0 <= i < digits.len() ==> is_digit(#[trigger] digits[i])
}

/// The number that the digits write.
pub open spec fn digits_value(digits: Seq<char>) -> nat
    decreases digits.len(),
{
    if digits.len() == 0 {
        0
    } else {
        digits_value(digits.drop_last()) * 10 + (digits.last() as nat - '0' as nat) as nat
    }
}

/// The digits of a number with or without a plus sign.
pub open spec fn unsigned(field: Seq<char>) -> Seq<char> {
    if field.len() > 0 && field[0] == '+' {
        field.skip(1)
    } else {
        field
    }
}

/// The number that `field` writes, if it writes one that is at most `limit`.
pub open spec fn parsed_number(field: Seq<char>, limit: nat) -> Option<nat> {
    let digits = unsigned(field);
    if digits.len() > 0 && all_digits(digits) && digits_value(digits) <= limit {
        Some(digits_value(digits))
    } else {
        None
    }
}

/// A number in decimal is digits, and writes that number.
pub proof fn decimal_writes_its_value(value: nat)
    ensures
        decimal(value).len() > 0,
        all_digits(decimal(value)),
        digits_value(decimal(value)) == value,
    decreases value,
{
    if value < 10 {
        let digits = decimal(value);
        assert(digits.drop_last() =~= seq![]);
        assert(digits_value(digits.drop_last()) == 0);
        assert(digits.last() == digit(value));
    } else {
        decimal_writes_its_value(value / 10);
        let digits = decimal(value);
        assert(digits.drop_last() =~= decimal(value / 10));
        assert(digits.last() == digit(value % 10));
    }
}

/// Reading a number that was written in decimal gives it back.
pub proof fn reading_undoes_writing(value: nat, limit: nat)
    requires
        value <= limit,
    ensures
        parsed_number(decimal(value), limit) == Some(value),
{
    decimal_writes_its_value(value);
    assert(is_digit(decimal(value)[0]));
}

/// The first digits of a number write no more than all of them.
proof fn lemma_prefix_value(digits: Seq<char>, count: int)
    requires
        0 <= count <= digits.len(),
    ensures
        digits_value(digits.take(count)) <= digits_value(digits),
    decreases digits.len() - count,
{
    if count == digits.len() {
        assert(digits.take(count) =~= digits);
    } else {
        lemma_prefix_value(digits, count + 1);
        assert(digits.take(count + 1).drop_last() =~= digits.take(count));
    }
}

/// The character of a digit.
fn digit_character(value: u64) -> (character: char)
    requires
        value < 10,
    ensures
        character == digit(value as nat),
{
    (48u8 + value as u8) as char
}

/// `value` in decimal, without leading zeros.
pub fn write_decimal(value: u64) -> (written: String)
    ensures
        written@ == decimal(value as nat),
    decreases value,
{
    if value < 10 {
        let mut written: String = String::new();
        written.push(digit_character(value));
        assert(written@ =~= decimal(value as nat));
        written
    } else {
        let mut written: String = write_decimal(value / 10);
        written.push(digit_character(value % 10));
        written
    }
}

/// The number that `field` writes, if it writes one that is at most `limit`.
pub fn parse_number(field: &str, limit: u64) -> (number: Option<u64>)
    ensures
        match parsed_number(field@, limit as nat) {
            Some(value) => number matches Some(found) && found == value,
            None => number is None,
        },
{
    let all: Vec<char> = characters(field);
    let start: usize = if all.len() > 0 && all[0] == '+' {
        1
    } else {
        0
    };
    let ghost digits = unsigned(field@);
    assert(digits =~= all@.skip(start as int));
    if start == all.len() {
        return None;
    }
    let mut value: u64 = 0;
    let mut index: usize = start;
    assert(digits.take(0) =~= seq![]);
    while index < all.len()
        invariant
            start <= index <= all@.len(),
            start <= 1,
            digits == all@.skip(start as int),
            digits == unsigned(field@),
            value == digits_value(digits.take(index - start)),
            value <= limit,
            forall|i: int| 0 <= i < index - start ==> is_digit(#[trigger] digits[i]),
        decreases all@.len() - index,
    {
        let character: char = all[index];
        assert(digits[index - start] == character);
        if !('0' <= character && character <= '9') {
            return None;
        }
        let worth: u64 = (character as u32 - 48) as u64;
        proof {
            assert(digits.take(index + 1 - start).drop_last() =~= digits.take(index - start));
            lemma_prefix_value(digits, index + 1 - start);
        }
        if worth > limit || value > (limit - worth) / 10 {
            return None;
        }
        value = value * 10 + worth;
        index += 1;
    }
    assert(digits.take(index - start) =~= digits);
    Some(value)
}

/// White space, as Unicode defines it.
pub open spec fn is_white_space(character: char) -> bool {
    ||| '\u{9}' <= character && character <= '\u{d}'
    ||| character == ' '
    ||| character == '\u{85}'
    ||| character == '\u{a0}'
    ||| character == '\u{1680}'
    ||| '\u{2000}' <= character && character <= '\u{200a}'
    ||| character == '\u{2028}'
    ||| character == '\u{2029}'
    ||| character == '\u{202f}'
    ||| character == '\u{205f}'
    ||| character == '\u{3000}'
}

/// The text up to its first white space.
pub open spec fn first_word(text: Seq<char>) -> Seq<char>
    decreases text.len(),
{
    if text.len() == 0 || is_white_space(text[0]) {
        seq![]
    } else {
        seq![text[0]] + first_word(text.drop_first())
    }
}

/// What white space separates in the text.
pub open spec fn fields(text: Seq<char>) -> Seq<Seq<char>>
    decreases text.len(),
    via fields_decreases
{
    if text.len() == 0 {
        seq![]
    } else if is_white_space(text[0]) {
        fields(text.drop_first())
    } else {
        seq![first_word(text)] + fields(text.skip(first_word(text).len() as int))
    }
}

#[via_fn]
proof fn fields_decreases(text: Seq<char>) {
    lemma_first_word(text);
}

/// The first word is how the text starts.
proof fn lemma_first_word(text: Seq<char>)
    ensures
        first_word(text).len() <= text.len(),
        first_word(text) == text.take(first_word(text).len() as int),
        text.len() > 0 && !is_white_space(text[0]) ==> first_word(text).len() > 0,
        forall|i: int|
            0 <= i < first_word(text).len() ==> !is_white_space(#[trigger] text[i]),
        first_word(text).len() < text.len() ==> is_white_space(
            text[first_word(text).len() as int],
        ),
    decreases text.len(),
{
    if text.len() > 0 && !is_white_space(text[0]) {
        let rest = text.drop_first();
        lemma_first_word(rest);
        assert(first_word(text) =~= text.take(first_word(text).len() as int));
        assert forall|i: int| 0 <= i < first_word(text).len() implies !is_white_space(
            #[trigger] text[i],
        ) by {
            if i > 0 {
                assert(rest[i - 1] == text[i]);
            }
        }
    } else {
        assert(text.take(0) =~= seq![]);
    }
}

/// The first word ends where white space first stands.
pub proof fn lemma_first_word_is(text: Seq<char>, length: int)
    requires
        0 <= length <= text.len(),
        forall|i: int| 0 <= i < length ==> !is_white_space(#[trigger] text[i]),
        length < text.len() ==> is_white_space(text[length]),
    ensures
        first_word(text) == text.take(length),
{
    lemma_first_word(text);
    let found = first_word(text).len() as int;
    if found < length {
        assert(!is_white_space(text[found]));
    } else if length < found {
        assert(!is_white_space(text[length]));
    }
}

/// The character is white space, as Unicode defines it.
fn is_space(character: char) -> (space: bool)
    ensures
        space == is_white_space(character),
{
    ('\u{9}' <= character && character <= '\u{d}') || character == ' ' || character == '\u{85}'
        || character == '\u{a0}' || character == '\u{1680}' || ('\u{2000}' <= character
        && character <= '\u{200a}') || character == '\u{2028}' || character == '\u{2029}'
        || character == '\u{202f}' || character == '\u{205f}' || character == '\u{3000}'
}

/// The fields as sequences of characters.
pub open spec fn field_views(all: Seq<String>) -> Seq<Seq<char>> {
    all.map_values(|field: String| field@)
}

/// What white space separates in the characters from `start` on.
pub fn split_fields(all: &[char], start: usize) -> (found: Vec<String>)
    requires
        start <= all@.len(),
    ensures
        field_views(found@) == fields(all@.skip(start as int)),
{
    let mut found: Vec<String> = Vec::new();
    let mut index: usize = start;
    assert(field_views(found@) + fields(all@.skip(start as int)) =~= fields(
        all@.skip(start as int),
    ));
    while index < all.len()
        invariant
            start <= index <= all@.len(),
            field_views(found@) + fields(all@.skip(index as int)) == fields(
                all@.skip(start as int),
            ),
        decreases all@.len() - index,
    {
        let ghost rest = all@.skip(index as int);
        if is_space(all[index]) {
            assert(rest.drop_first() =~= all@.skip(index + 1));
            index += 1;
        } else {
            let mut end: usize = index + 1;
            while end < all.len() && !is_space(all[end])
                invariant
                    index < end <= all@.len(),
                    forall|i: int| index <= i < end ==> !is_white_space(#[trigger] all@[i]),
                decreases all@.len() - end,
            {
                end += 1;
            }
            let ghost before = found@;
            let field: String = collect(all, index, end);
            proof {
                assert forall|i: int| 0 <= i < end - index implies !is_white_space(
                    #[trigger] rest[i],
                ) by {
                    assert(rest[i] == all@[index + i]);
                }
                lemma_first_word_is(rest, end - index);
                assert(rest.take(end - index) =~= all@.subrange(index as int, end as int));
                assert(rest.skip(end - index) =~= all@.skip(end as int));
            }
            found.push(field);
            proof {
                assert(field_views(found@) =~= field_views(before).push(first_word(rest)));
                assert(field_views(found@) + fields(all@.skip(end as int)) =~= field_views(before)
                    + (seq![first_word(rest)] + fields(all@.skip(end as int))));
            }
            index = end;
        }
    }
    assert(all@.skip(index as int) =~= seq![]);
    assert(field_views(found@) + fields(all@.skip(index as int)) =~= field_views(found@));
    found
}

} // verus!

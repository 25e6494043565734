//! What holds of every text and of every byte string.

use vstd::prelude::*;

use crate::bytes;
use crate::numbers;
use crate::text;

verus! {

/// Text starts with a prefix exactly if it is the prefix with something behind it, and ends with
/// a suffix exactly if it is the suffix with something before it.
pub proof fn prefixes_and_suffixes_make_up_text(all: Seq<char>, part: Seq<char>)
    ensures
        text::has_prefix(all, part) <==> exists|rest: Seq<char>| all == #[trigger] (part + rest),
        text::has_suffix(all, part) <==> exists|rest: Seq<char>| all == #[trigger] (rest + part),
{
    if text::has_prefix(all, part) {
        assert(all =~= part + all.skip(part.len() as int));
    }
    if text::has_suffix(all, part) {
        assert(all =~= all.take(all.len() - part.len()) + part);
    }
    assert forall|rest: Seq<char>| all == #[trigger] (part + rest) implies text::has_prefix(
        all,
        part,
    ) by {
        assert(all.take(part.len() as int) =~= part);
    }
    assert forall|rest: Seq<char>| all == #[trigger] (rest + part) implies text::has_suffix(
        all,
        part,
    ) by {
        assert(all.skip(all.len() - part.len()) =~= part);
    }
}

/// Bytes start with a prefix exactly if they are the prefix with something behind it, and hold a
/// part exactly if they are the part with something before and behind it.
pub proof fn prefixes_and_parts_make_up_bytes(all: Seq<u8>, part: Seq<u8>)
    ensures
        bytes::has_prefix(all, part) <==> exists|rest: Seq<u8>| all == #[trigger] (part + rest),
        bytes::has_part(all, part) <==> exists|before: Seq<u8>, rest: Seq<u8>|
            all == #[trigger] (before + part + rest),
{
    if bytes::has_prefix(all, part) {
        assert(all =~= part + all.skip(part.len() as int));
    }
    if bytes::has_part(all, part) {
        let position = choose|position: int| bytes::occurs_at(all, part, position);
        assert(bytes::occurs_at(all, part, position));
        assert(all =~= all.take(position) + part + all.skip(position + part.len()));
    }
    assert forall|rest: Seq<u8>| all == #[trigger] (part + rest) implies bytes::has_prefix(
        all,
        part,
    ) by {
        assert(all.take(part.len() as int) =~= part);
    }
    assert forall|before: Seq<u8>, rest: Seq<u8>|
        all == #[trigger] (before + part + rest) implies bytes::has_part(all, part) by {
        assert(all.subrange(before.len() as int, (before.len() + part.len()) as int) =~= part);
        assert(bytes::occurs_at(all, part, before.len() as int));
    }
}

/// A line of a file is taken to end the DOS way if a carriage return and a line feed stand side
/// by side in the file.
pub proof fn a_dos_file_holds_a_dos_ending(all: Seq<u8>)
    ensures
        bytes::has_crlf(all) <==> bytes::has_part(all, seq![13u8, 10u8]),
{
    let part = seq![13u8, 10u8];
    if bytes::has_crlf(all) {
        let i = choose|i: int|
            0 <= i && i + 1 < all.len() && #[trigger] all[i] == 13 && all[i + 1] == 10;
        assert(all.subrange(i, i + 2) =~= part);
        assert(bytes::occurs_at(all, part, i));
    }
    if bytes::has_part(all, part) {
        let i = choose|i: int| bytes::occurs_at(all, part, i);
        assert(bytes::occurs_at(all, part, i));
        assert(all[i] == all.subrange(i, i + 2)[0]);
        assert(all[i + 1] == all.subrange(i, i + 2)[1]);
    }
}

/// White space in a configuration is the space, the tab, the line feed, the form feed and the
/// carriage return.
pub proof fn white_space_in_bytes(byte: u8)
    ensures
        bytes::is_space(byte) <==> seq![32u8, 9, 10, 12, 13].contains(byte),
{
    let all = seq![32u8, 9, 10, 12, 13];
    assert(all[0] == 32 && all[1] == 9 && all[2] == 10 && all[3] == 12 && all[4] == 13);
}

/// Bytes are their indentation, what trimming leaves of them, and white space behind it; what is
/// left starts and ends visibly.
pub proof fn trimming_leaves_the_visible_bytes(all: Seq<u8>)
    ensures
        ({
            let start = bytes::trim_start(all);
            let inner = bytes::trim(all);
            let indent = bytes::indentation(all);
            &&& all == indent + start
            &&& forall|i: int| 0 <= i < indent.len() ==> bytes::is_space(#[trigger] indent[i])
            &&& start.len() > 0 ==> !bytes::is_space(start[0])
            &&& inner == start.take(inner.len() as int)
            &&& inner.len() <= start.len()
            &&& forall|i: int|
                inner.len() <= i < start.len() ==> bytes::is_space(#[trigger] start[i])
            &&& inner.len() > 0 ==> !bytes::is_space(inner[0]) && !bytes::is_space(inner.last())
        }),
{
    bytes::lemma_trim_start(all);
    bytes::lemma_trim_end(bytes::trim_start(all));
    assert(all =~= bytes::indentation(all) + bytes::trim_start(all));
    let indent = bytes::indentation(all);
    assert forall|i: int| 0 <= i < indent.len() implies bytes::is_space(#[trigger] indent[i]) by {
        assert(indent[i] == all[i]);
    }
}

/// What stands before the first stop is all that stands before it, and behind the last stop all
/// that stands behind it.
pub proof fn text_is_cut_at_stops(before: Seq<char>, behind: Seq<char>, stop: char)
    ensures
        !before.contains(stop) ==> text::before_first(before + seq![stop] + behind, stop) == before
            && text::before_first(before, stop) == before,
        !behind.contains(stop) ==> text::after_last(before + seq![stop] + behind, stop) == behind
            && text::after_last(behind, stop) == behind,
{
    if !before.contains(stop) {
        lemma_before_first(before, seq![stop] + behind, stop);
        assert(before + (seq![stop] + behind) =~= before + seq![stop] + behind);
        lemma_before_first(before, seq![], stop);
        assert(before + seq![] =~= before);
    }
    if !behind.contains(stop) {
        lemma_after_last(before.push(stop), behind, stop);
        assert(before.push(stop) + behind =~= before + seq![stop] + behind);
        lemma_after_last(seq![], behind, stop);
        assert(seq![] + behind =~= behind);
    }
}

/// Text without a stop, up to a stop or the end, stands before the first stop.
proof fn lemma_before_first(before: Seq<char>, behind: Seq<char>, stop: char)
    requires
        !before.contains(stop),
        behind.len() > 0 ==> behind[0] == stop,
    ensures
        text::before_first(before + behind, stop) == before,
    decreases before.len(),
{
    let all = before + behind;
    if before.len() == 0 {
        assert(before =~= seq![]);
    } else {
        let fewer = before.drop_first();
        assert(before.contains(before[0]));
        if fewer.contains(stop) {
            let i = fewer.index_of(stop);
            assert(before[i + 1] == stop);
        }
        lemma_before_first(fewer, behind, stop);
        assert(all.drop_first() =~= fewer + behind);
        assert(seq![before[0]] + fewer =~= before);
    }
}

/// Text without a stop, from a stop or the start on, stands behind the last stop.
proof fn lemma_after_last(before: Seq<char>, behind: Seq<char>, stop: char)
    requires
        !behind.contains(stop),
        before.len() > 0 ==> before.last() == stop,
    ensures
        text::after_last(before + behind, stop) == behind,
    decreases behind.len(),
{
    let all = before + behind;
    if behind.len() == 0 {
        assert(behind =~= seq![]);
    } else {
        let fewer = behind.drop_last();
        assert(behind.contains(behind[behind.len() - 1]));
        if fewer.contains(stop) {
            let i = fewer.index_of(stop);
            assert(behind[i] == stop);
        }
        lemma_after_last(before, fewer, stop);
        assert(all.drop_last() =~= before + fewer);
        assert(fewer.push(behind.last()) =~= behind);
    }
}

/// White space in text is what Unicode says it is.
pub proof fn white_space_in_text(character: char)
    ensures
        numbers::is_white_space(character) <==> {
            let code = character as u32;
            ||| code == 0x20 || code == 0x09 || code == 0x0a || code == 0x0b || code == 0x0c
            ||| code == 0x0d || code == 0x85 || code == 0xa0 || code == 0x1680
            ||| 0x2000 <= code <= 0x200a
            ||| code == 0x2028 || code == 0x2029 || code == 0x202f || code == 0x205f || code
                == 0x3000
        },
{
}

/// The text holds no white space.
pub open spec fn is_word(word: Seq<char>) -> bool {
    word.len() > 0 && forall|i: int|
        0 <= i < word.len() ==> !numbers::is_white_space(#[trigger] word[i])
}

/// The fields of a text are its words: white space before a text counts for nothing, and a word
/// with white space or nothing behind it is a field of its own.
pub proof fn words_are_fields(word: Seq<char>, space: char, rest: Seq<char>)
    requires
        numbers::is_white_space(space),
    ensures
        numbers::fields(seq![]) == Seq::<Seq<char>>::empty(),
        numbers::fields(seq![space] + rest) == numbers::fields(rest),
        is_word(word) ==> numbers::fields(word) == seq![word],
        is_word(word) ==> numbers::fields(word + seq![space] + rest) == seq![word]
            + numbers::fields(rest),
{
    let behind = seq![space] + rest;
    assert(behind.drop_first() =~= rest);
    assert(numbers::fields(seq![]) =~= Seq::<Seq<char>>::empty());
    if is_word(word) {
        numbers::lemma_first_word_is(word, word.len() as int);
        assert(word.take(word.len() as int) =~= word);
        assert(word.skip(word.len() as int) =~= seq![]);
        assert(numbers::fields(word) =~= seq![word]);
        let all = word + seq![space] + rest;
        assert forall|i: int| 0 <= i < word.len() implies !numbers::is_white_space(
            #[trigger] all[i],
        ) by {
            assert(all[i] == word[i]);
        }
        numbers::lemma_first_word_is(all, word.len() as int);
        assert(all.take(word.len() as int) =~= word);
        assert(all.skip(word.len() as int) =~= behind);
        assert(!numbers::is_white_space(all[0]));
        assert(behind[0] == space);
        assert(numbers::fields(behind) == numbers::fields(rest));
        assert(numbers::fields(all) == seq![word] + numbers::fields(behind));
    }
}

/// A number in decimal has no leading zeros, and no two numbers are written alike.
pub proof fn numbers_are_written_apart(left: nat, right: nat)
    ensures
        numbers::decimal(left) == numbers::decimal(right) <==> left == right,
        left > 0 ==> numbers::decimal(left)[0] != '0',
    decreases left,
{
    numbers::decimal_writes_its_value(left);
    numbers::decimal_writes_its_value(right);
    if left >= 10 {
        numbers_are_written_apart(left / 10, right);
        numbers::decimal_writes_its_value(left / 10);
        assert(numbers::decimal(left)[0] == numbers::decimal(left / 10)[0]);
    }
}

/// A number is read digit by digit, with or without a plus sign before them, as long as it does
/// not exceed the limit; and nothing else is read as a number.
pub proof fn numbers_are_read_by_their_digits(digits: Seq<char>, digit: nat, limit: nat)
    requires
        digit < 10,
    ensures
        ({
            let more = digits.push(numbers::digit(digit));
            &&& numbers::parsed_number(digits, limit) matches Some(value) ==> value <= limit && (
            value * 10 + digit <= limit ==> numbers::parsed_number(more, limit) == Some(
                value * 10 + digit,
            ))
            &&& numbers::parsed_number(digits, limit) matches Some(value) ==> value * 10 + digit
                > limit ==> numbers::parsed_number(more, limit) is None
        }),
        digit <= limit ==> numbers::parsed_number(seq![numbers::digit(digit)], limit) == Some(
            digit,
        ),
        numbers::parsed_number(seq!['+'] + digits, limit) == (if digits.len() > 0 && digits[0]
            == '+' {
            None
        } else {
            numbers::parsed_number(digits, limit)
        }),
        forall|i: int|
            0 < i < digits.len() && !('0' <= #[trigger] digits[i] && digits[i] <= '9')
                ==> numbers::parsed_number(digits, limit) is None,
        digits.len() > 0 && digits[0] != '+' && !('0' <= digits[0] && digits[0] <= '9')
            ==> numbers::parsed_number(digits, limit) is None,
        numbers::parsed_number(seq![], limit) is None,
{
    let last = numbers::digit(digit);
    let more = digits.push(last);
    assert(numbers::is_digit(last));
    let plain = numbers::unsigned(digits);
    if digits.len() > 0 {
        assert(numbers::unsigned(more) =~= plain.push(last));
        assert(plain.push(last).drop_last() =~= plain);
        assert(numbers::digits_value(plain.push(last)) == numbers::digits_value(plain) * 10
            + digit);
        if numbers::parsed_number(digits, limit) is Some {
            assert forall|i: int| 0 <= i < plain.push(last).len() implies numbers::is_digit(
                #[trigger] plain.push(last)[i],
            ) by {
                if i < plain.len() {
                    assert(numbers::is_digit(plain[i]));
                }
            }
        }
    }
    numbers::reading_undoes_writing(digit, digit);
    if digit <= limit {
        numbers::reading_undoes_writing(digit, limit);
        assert(numbers::decimal(digit) =~= seq![last]);
    }
    let signed = seq!['+'] + digits;
    assert(numbers::unsigned(signed) =~= digits);
    if digits.len() > 0 && digits[0] == '+' {
        assert(!numbers::is_digit(digits[0]));
    }
    assert forall|i: int|
        0 < i < digits.len() && !('0' <= #[trigger] digits[i] && digits[i]
            <= '9') implies numbers::parsed_number(digits, limit) is None by {
        if digits[0] == '+' {
            assert(plain[i - 1] == digits[i]);
        } else {
            assert(plain[i] == digits[i]);
        }
    }
    if digits.len() > 0 && digits[0] != '+' && !('0' <= digits[0] && digits[0] <= '9') {
        assert(plain[0] == digits[0]);
    }
}

} // verus!

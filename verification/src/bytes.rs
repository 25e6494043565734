//! Byte strings: ASCII white space, prefixes and substrings.

use vstd::prelude::*;
use vstd::slice::slice_subrange;

verus! {

/// The line feed.
pub const LINE_FEED: u8 = 10;

/// The carriage return.
pub const CARRIAGE_RETURN: u8 = 13;

/// The hash sign that starts a comment.
pub const HASH: u8 = 35;

/// The equals sign.
pub const EQUALS: u8 = 61;

/// The opening square bracket.
pub const OPEN_BRACKET: u8 = 91;

/// The closing square bracket.
pub const CLOSE_BRACKET: u8 = 93;

/// ASCII white space: space, tab, line feed, form feed and carriage return.
pub open spec fn is_space(byte: u8) -> bool {
    byte == 32 || byte == 9 || byte == 10 || byte == 12 || byte == 13
}

/// `text` without its leading white space.
pub open spec fn trim_start(text: Seq<u8>) -> Seq<u8>
    decreases text.len(),
{
    if text.len() > 0 && is_space(text.first()) {
        trim_start(text.drop_first())
    } else {
        text
    }
}

/// `text` without its trailing white space.
pub open spec fn trim_end(text: Seq<u8>) -> Seq<u8>
    decreases text.len(),
{
    if text.len() > 0 && is_space(text.last()) {
        trim_end(text.drop_last())
    } else {
        text
    }
}

/// `text` without white space at either end.
pub open spec fn trim(text: Seq<u8>) -> Seq<u8> {
    trim_end(trim_start(text))
}

/// The white space that `text` starts with.
pub open spec fn indentation(text: Seq<u8>) -> Seq<u8> {
    text.take(text.len() - trim_start(text).len())
}

/// `text` starts with `prefix`.
pub open spec fn has_prefix(text: Seq<u8>, prefix: Seq<u8>) -> bool {
    prefix.len() <= text.len() && text.take(prefix.len() as int) == prefix
}

/// `part` stands at `position` in `text`.
pub open spec fn occurs_at(text: Seq<u8>, part: Seq<u8>, position: int) -> bool {
    0 <= position && position + part.len() <= text.len() && text.subrange(
        position,
        position + part.len(),
    ) == part
}

/// `part` stands somewhere in `text`.
pub open spec fn has_part(text: Seq<u8>, part: Seq<u8>) -> bool {
    exists|position: int| occurs_at(text, part, position)
}

/// Trimming the start removes a white-space prefix and stops at the first other byte.
pub proof fn lemma_trim_start(text: Seq<u8>)
    ensures
        trim_start(text).len() <= text.len(),
        trim_start(text) == text.skip(text.len() - trim_start(text).len()),
        forall|i: int|
            0 <= i < text.len() - trim_start(text).len() ==> is_space(#[trigger] text[i]),
        trim_start(text).len() > 0 ==> !is_space(trim_start(text)[0]),
    decreases text.len(),
{
    if text.len() > 0 && is_space(text.first()) {
        let rest = text.drop_first();
        lemma_trim_start(rest);
        let cut = rest.len() - trim_start(rest).len();
        assert(rest.skip(cut) =~= text.skip(cut + 1));
        assert forall|i: int|
            0 <= i < text.len() - trim_start(text).len() implies is_space(#[trigger] text[i]) by {
            if i > 0 {
                assert(text[i] == rest[i - 1]);
            }
        }
    } else {
        assert(text.skip(0) =~= text);
    }
}

/// Trimming the end removes a white-space suffix and stops at the last other byte.
pub proof fn lemma_trim_end(text: Seq<u8>)
    ensures
        trim_end(text).len() <= text.len(),
        trim_end(text) == text.take(trim_end(text).len() as int),
        forall|i: int| trim_end(text).len() <= i < text.len() ==> is_space(#[trigger] text[i]),
        trim_end(text).len() > 0 ==> !is_space(trim_end(text).last()),
    decreases text.len(),
{
    if text.len() > 0 && is_space(text.last()) {
        let rest = text.drop_last();
        lemma_trim_end(rest);
        assert(rest.take(trim_end(rest).len() as int) =~= text.take(trim_end(rest).len() as int));
        assert forall|i: int| trim_end(text).len() <= i < text.len() implies is_space(
            #[trigger] text[i],
        ) by {
            if i < text.len() - 1 {
                assert(text[i] == rest[i]);
            }
        }
    } else {
        assert(text.take(text.len() as int) =~= text);
    }
}

/// The two byte strings are equal.
pub fn equal(left: &[u8], right: &[u8]) -> (same: bool)
    ensures
        same == (left@ == right@),
{
    if left.len() != right.len() {
        return false;
    }
    let mut index: usize = 0;
    while index < left.len()
        invariant
            index <= left@.len(),
            left@.len() == right@.len(),
            forall|i: int| 0 <= i < index ==> left@[i] == right@[i],
        decreases left@.len() - index,
    {
        if left[index] != right[index] {
            return false;
        }
        index += 1;
    }
    assert(left@ =~= right@);
    true
}

/// `text` starts with `prefix`.
pub fn starts_with(text: &[u8], prefix: &[u8]) -> (found: bool)
    ensures
        found == has_prefix(text@, prefix@),
{
    prefix.len() <= text.len() && equal(slice_subrange(text, 0, prefix.len()), prefix)
}

/// `part` stands somewhere in `text`.
pub fn contains(text: &[u8], part: &[u8]) -> (found: bool)
    ensures
        found == has_part(text@, part@),
{
    if part.len() > text.len() {
        assert forall|position: int| !occurs_at(text@, part@, position) by {}
        return false;
    }
    let last: usize = text.len() - part.len();
    let mut position: usize = 0;
    loop
        invariant
            last == text@.len() - part@.len(),
            position <= last,
            forall|earlier: int| 0 <= earlier < position ==> !occurs_at(text@, part@, earlier),
        decreases last - position,
    {
        let end: usize = text.len() - (last - position);
        if equal(slice_subrange(text, position, end), part) {
            assert(occurs_at(text@, part@, position as int));
            return true;
        }
        if position == last {
            assert forall|other: int| !occurs_at(text@, part@, other) by {}
            return false;
        }
        position += 1;
    }
}

/// The byte is ASCII white space.
pub fn is_ascii_space(byte: u8) -> (space: bool)
    ensures
        space == is_space(byte),
{
    byte == 32 || byte == 9 || byte == 10 || byte == 12 || byte == 13
}

/// How many bytes of white space `line` starts with.
fn leading_space(line: &[u8]) -> (length: usize)
    ensures
        length == line@.len() - trim_start(line@).len(),
        length <= line@.len(),
{
    let mut length: usize = 0;
    assert(line@.skip(0) =~= line@);
    while length < line.len() && is_ascii_space(line[length])
        invariant
            length <= line@.len(),
            trim_start(line@.skip(length as int)) == trim_start(line@),
        decreases line@.len() - length,
    {
        assert(line@.skip(length as int).drop_first() =~= line@.skip(length + 1));
        length += 1;
    }
    length
}

/// The white space that `line` starts with.
pub fn leading_indentation(line: &[u8]) -> (indent: &[u8])
    ensures
        indent@ == indentation(line@),
{
    let length: usize = leading_space(line);
    slice_subrange(line, 0, length)
}

/// `line` without its leading white space.
pub fn trim_ascii_start(line: &[u8]) -> (trimmed: &[u8])
    ensures
        trimmed@ == trim_start(line@),
{
    let length: usize = leading_space(line);
    proof {
        lemma_trim_start(line@);
    }
    slice_subrange(line, length, line.len())
}

/// `line` without white space at either end.
pub fn trim_ascii(line: &[u8]) -> (trimmed: &[u8])
    ensures
        trimmed@ == trim(line@),
{
    let text: &[u8] = trim_ascii_start(line);
    let mut length: usize = text.len();
    assert(text@.take(length as int) =~= text@);
    while length > 0 && is_ascii_space(text[length - 1])
        invariant
            length <= text@.len(),
            trim_end(text@.take(length as int)) == trim_end(text@),
        decreases length,
    {
        assert(text@.take(length as int).drop_last() =~= text@.take(length - 1));
        length -= 1;
    }
    slice_subrange(text, 0, length)
}

/// Some carriage return is directly followed by a line feed.
pub open spec fn has_crlf(text: Seq<u8>) -> bool {
    exists|i: int|
        0 <= i && i + 1 < text.len() && #[trigger] text[i] == CARRIAGE_RETURN && text[i + 1]
            == LINE_FEED
}

/// Some carriage return in `text` is directly followed by a line feed.
pub fn contains_crlf(text: &[u8]) -> (found: bool)
    ensures
        found == has_crlf(text@),
{
    let mut index: usize = 1;
    while index < text.len()
        invariant
            1 <= index,
            forall|i: int|
                0 <= i && i + 1 < index && i + 1 < text@.len() ==> !(#[trigger] text@[i]
                    == CARRIAGE_RETURN && text@[i + 1] == LINE_FEED),
        decreases text@.len() - index,
    {
        if text[index - 1] == CARRIAGE_RETURN && text[index] == LINE_FEED {
            assert(text@[index - 1] == CARRIAGE_RETURN);
            return true;
        }
        index += 1;
    }
    false
}

} // verus!

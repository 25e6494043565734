//! Text as a sequence of characters.

use vstd::prelude::*;
use vstd::string::*;

verus! {

/// `String::push` appends the character to the end of the string.
pub assume_specification[ String::push ](s: &mut String, c: char)
    ensures
        final(s)@ == old(s)@.push(c),
;

/// `text` ends with `suffix`.
pub open spec fn has_suffix(text: Seq<char>, suffix: Seq<char>) -> bool {
    suffix.len() <= text.len() && text.skip(text.len() - suffix.len()) == suffix
}

/// `text` starts with `prefix`.
pub open spec fn has_prefix(text: Seq<char>, prefix: Seq<char>) -> bool {
    prefix.len() <= text.len() && text.take(prefix.len() as int) == prefix
}

/// `text` up to the first `stop`, or all of it where there is none.
pub open spec fn before_first(text: Seq<char>, stop: char) -> Seq<char>
    decreases text.len(),
{
    if text.len() == 0 || text[0] == stop {
        seq![]
    } else {
        seq![text[0]] + before_first(text.drop_first(), stop)
    }
}

/// `text` behind the last `stop`, or all of it where there is none.
pub open spec fn after_last(text: Seq<char>, stop: char) -> Seq<char>
    decreases text.len(),
{
    if text.len() == 0 || text.last() == stop {
        seq![]
    } else {
        after_last(text.drop_last(), stop).push(text.last())
    }
}

/// `character` over and over.
pub open spec fn repeated(character: char, count: nat) -> Seq<char> {
    Seq::new(count, |i: int| character)
}

/// The first characters of `text` are those before `stop`.
proof fn lemma_before_first(text: Seq<char>, stop: char, end: int)
    requires
        0 <= end <= text.len(),
        forall|i: int| 0 <= i < end ==> #[trigger] text[i] != stop,
        end < text.len() ==> text[end] == stop,
    ensures
        before_first(text, stop) == text.take(end),
    decreases end,
{
    if end == 0 {
        assert(text.take(0) =~= seq![]);
    } else {
        assert forall|i: int| 0 <= i < end - 1 implies #[trigger] text.drop_first()[i] != stop by {
            assert(text[i + 1] != stop);
        }
        lemma_before_first(text.drop_first(), stop, end - 1);
        assert(seq![text[0]] + text.drop_first().take(end - 1) =~= text.take(end));
    }
}

/// The last characters of `text` are those behind `stop`.
proof fn lemma_after_last(text: Seq<char>, stop: char, start: int)
    requires
        0 <= start <= text.len(),
        forall|i: int| start <= i < text.len() ==> #[trigger] text[i] != stop,
        start > 0 ==> text[start - 1] == stop,
    ensures
        after_last(text, stop) == text.skip(start),
    decreases text.len() - start,
{
    if start == text.len() {
        assert(text.skip(start) =~= seq![]);
    } else {
        lemma_after_last(text.drop_last(), stop, start);
        assert(text.drop_last().skip(start).push(text.last()) =~= text.skip(start));
    }
}

/// The characters of `text`.
pub fn characters(text: &str) -> (all: Vec<char>)
    ensures
        all@ == text@,
{
    let mut all: Vec<char> = Vec::new();
    for character in it: text.chars()
        invariant
            it.seq() == text@,
            all@ == text@.take(it.index() as int),
    {
        all.push(character);
        assert(all@ =~= text@.take(it.index() + 1));
    }
    assert(all@ =~= text@);
    all
}

/// The text that the characters from `start` to `end` make.
pub fn collect(all: &[char], start: usize, end: usize) -> (text: String)
    requires
        start <= end <= all@.len(),
    ensures
        text@ == all@.subrange(start as int, end as int),
{
    let mut text: String = String::new();
    let mut index: usize = start;
    assert(text@ =~= all@.subrange(start as int, start as int));
    while index < end
        invariant
            start <= index <= end <= all@.len(),
            text@ == all@.subrange(start as int, index as int),
        decreases end - index,
    {
        text.push(all[index]);
        index += 1;
        assert(text@ =~= all@.subrange(start as int, index as int));
    }
    text
}

/// `text` starts with `prefix`.
pub fn starts_with(text: &str, prefix: &str) -> (found: bool)
    ensures
        found == has_prefix(text@, prefix@),
{
    let all: Vec<char> = characters(text);
    let start: Vec<char> = characters(prefix);
    if start.len() > all.len() {
        return false;
    }
    let mut index: usize = 0;
    while index < start.len()
        invariant
            all@ == text@,
            start@ == prefix@,
            index <= start@.len() <= all@.len(),
            forall|i: int| 0 <= i < index ==> #[trigger] start@[i] == all@[i],
        decreases start@.len() - index,
    {
        if all[index] != start[index] {
            assert(text@.take(prefix@.len() as int)[index as int] != prefix@[index as int]);
            return false;
        }
        index += 1;
    }
    assert(text@.take(prefix@.len() as int) =~= prefix@);
    true
}

/// The two texts are equal.
pub fn same(left: &str, right: &str) -> (equal: bool)
    ensures
        equal == (left@ == right@),
{
    let equal: bool = starts_with(left, right) && starts_with(right, left);
    proof {
        if equal {
            assert(left@.take(right@.len() as int) =~= left@);
        }
        assert(left@ == right@ ==> left@.take(right@.len() as int) =~= left@);
    }
    equal
}

/// `text` ends with `suffix`.
pub fn ends_with(text: &str, suffix: &str) -> (found: bool)
    ensures
        found == has_suffix(text@, suffix@),
{
    let all: Vec<char> = characters(text);
    let end: Vec<char> = characters(suffix);
    if end.len() > all.len() {
        return false;
    }
    let length: usize = all.len();
    let offset: usize = length - end.len();
    let mut index: usize = 0;
    while index < end.len()
        invariant
            all@ == text@,
            end@ == suffix@,
            length == all@.len(),
            offset == length - end@.len(),
            index <= end@.len(),
            forall|i: int| 0 <= i < index ==> #[trigger] end@[i] == all@[offset + i],
        decreases end@.len() - index,
    {
        if all[offset + index] != end[index] {
            assert(text@.skip(offset as int)[index as int] != suffix@[index as int]);
            return false;
        }
        index += 1;
    }
    assert(text@.skip(offset as int) =~= suffix@);
    true
}

/// Where the first `stop` stands, or the end where there is none.
fn first_position(all: &Vec<char>, stop: char) -> (position: usize)
    ensures
        position <= all@.len(),
        all@.take(position as int) == before_first(all@, stop),
{
    let mut position: usize = 0;
    while position < all.len() && all[position] != stop
        invariant
            position <= all@.len(),
            forall|i: int| 0 <= i < position ==> #[trigger] all@[i] != stop,
        decreases all@.len() - position,
    {
        position += 1;
    }
    proof {
        lemma_before_first(all@, stop, position as int);
    }
    position
}

/// Where the text behind the last `stop` starts.
pub fn last_start(all: &[char], stop: char) -> (start: usize)
    ensures
        start <= all@.len(),
        start > 0 ==> all@[start - 1] == stop,
        all@.skip(start as int) == after_last(all@, stop),
{
    let mut start: usize = all.len();
    while start > 0 && all[start - 1] != stop
        invariant
            start <= all@.len(),
            forall|i: int| start <= i < all@.len() ==> #[trigger] all@[i] != stop,
        decreases start,
    {
        start -= 1;
    }
    proof {
        lemma_after_last(all@, stop, start as int);
    }
    start
}

/// `text` up to the first `stop`, or all of it where there is none.
pub fn cut_at(text: &str, stop: char) -> (before: String)
    ensures
        before@ == before_first(text@, stop),
{
    let all: Vec<char> = characters(text);
    let position: usize = first_position(&all, stop);
    assert(all@.subrange(0, position as int) =~= all@.take(position as int));
    collect(all.as_slice(), 0, position)
}

/// `character` over and over.
pub fn repeat(character: char, count: usize) -> (text: String)
    ensures
        text@ == repeated(character, count as nat),
{
    let mut text: String = String::new();
    let mut done: usize = 0;
    assert(text@ =~= repeated(character, 0));
    while done < count
        invariant
            done <= count,
            text@ == repeated(character, done as nat),
        decreases count - done,
    {
        text.push(character);
        done += 1;
        assert(text@ =~= repeated(character, done as nat));
    }
    text
}

} // verus!

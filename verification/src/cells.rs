//! The cells that text takes on a terminal.

use unicode_width::UnicodeWidthStr;
use vstd::prelude::*;
use vstd::string::*;

use crate::text;
use crate::text::{characters, collect, repeat};

verus! {

/// The cells that the crate `unicode-width` counts for `text`.
pub uninterp spec fn display_cells(text: Seq<char>) -> nat;

/// A printable ASCII character.
pub open spec fn is_printable(character: char) -> bool {
    ' ' <= character && character <= '~'
}

/// A printable ASCII character that takes one cell whatever stands beside it. Digits, the hash
/// sign and the asterisk are none: with what follows them they may be one emoji.
pub open spec fn is_inert(character: char) -> bool {
    is_printable(character) && !('0' <= character && character <= '9') && character != '#'
        && character != '*'
}

/// All characters are inert.
pub open spec fn all_inert(text: Seq<char>) -> bool {
    forall|i: int| 0 <= i < text.len() ==> is_inert(#[trigger] text[i])
}

/// All characters are printable ASCII.
pub open spec fn all_printable(text: Seq<char>) -> bool {
    forall|i: int| 0 <= i < text.len() ==> is_printable(#[trigger] text[i])
}

/// The cells of `text` by `UnicodeWidthStr::width`. It adds up what each character takes, given
/// what follows it. So printable ASCII text takes a cell for each character, and an inert
/// character takes one cell and parts what stands before it from what stands behind it.
#[verifier::external_body]
pub(crate) fn cells(text: &str) -> (count: usize)
    ensures
        count == display_cells(text@),
        all_printable(text@) ==> count == text@.len(),
        forall|gap: Seq<char>|
            all_inert(gap) ==> #[trigger] display_cells(text@ + gap) == count + gap.len(),
        forall|gap: Seq<char>, rest: Seq<char>|
            all_inert(gap) && gap.len() > 0 ==> #[trigger] display_cells(text@ + gap + rest)
                == count + gap.len() + display_cells(rest),
{
    UnicodeWidthStr::width(text)
}

/// The cells of each part of `text` that starts where it starts, the shortest one first.
pub open spec fn prefix_cells(text: Seq<char>) -> Seq<nat> {
    Seq::new(text.len(), |i: int| display_cells(text.take(i + 1)))
}

/// How many of `counts`, from the first one on, are at most `limit`.
pub open spec fn fitting(counts: Seq<nat>, limit: nat) -> nat
    decreases counts.len(),
{
    if counts.len() == 0 || counts[0] > limit {
        0
    } else {
        1 + fitting(counts.drop_first(), limit)
    }
}

/// `text` as it is shown in `limit` cells: whole if it fits, or cut at its end, with three dots
/// for what is missing and with spaces before them where a wide character did not fit.
pub open spec fn truncated(text: Seq<char>, limit: nat) -> Seq<char> {
    if display_cells(text) <= limit {
        text
    } else if limit <= 3 {
        text::repeated('.', limit)
    } else {
        let room = (limit - 3) as nat;
        let kept = text.take(fitting(prefix_cells(text), room) as int);
        kept + text::repeated(' ', (room - display_cells(kept)) as nat) + "..."@
    }
}

/// The cells that `text` takes once it is shown in `limit` cells.
pub open spec fn shown_cells(text: Seq<char>, limit: nat) -> nat {
    if display_cells(text) <= limit {
        display_cells(text)
    } else {
        limit
    }
}

/// The counts as mathematical integers.
pub open spec fn count_views(counts: Seq<usize>) -> Seq<nat> {
    counts.map_values(|count: usize| count as nat)
}

/// What fits is what comes before the first count that does not.
proof fn lemma_fitting(counts: Seq<nat>, limit: nat, count: int)
    requires
        0 <= count <= counts.len(),
        forall|i: int| 0 <= i < count ==> #[trigger] counts[i] <= limit,
        count < counts.len() ==> counts[count] > limit,
    ensures
        fitting(counts, limit) == count,
    decreases count,
{
    if count > 0 {
        let rest = counts.drop_first();
        assert(counts[0] <= limit);
        assert forall|i: int| 0 <= i < count - 1 implies #[trigger] rest[i] <= limit by {
            assert(counts[i + 1] <= limit);
        }
        lemma_fitting(rest, limit, count - 1);
    }
}

/// How many of `counts`, from the first one on, are at most `limit`.
pub fn count_fitting(counts: &[usize], limit: usize) -> (fit: usize)
    ensures
        fit == fitting(count_views(counts@), limit as nat),
        fit <= counts@.len(),
        fit > 0 ==> counts@[fit - 1] <= limit,
{
    let mut fit: usize = 0;
    while fit < counts.len() && counts[fit] <= limit
        invariant
            fit <= counts@.len(),
            forall|i: int| 0 <= i < fit ==> #[trigger] counts@[i] <= limit,
        decreases counts@.len() - fit,
    {
        fit += 1;
    }
    proof {
        let views = count_views(counts@);
        assert forall|i: int| 0 <= i < fit implies #[trigger] views[i] <= limit by {
            assert(counts@[i] <= limit);
        }
        lemma_fitting(views, limit as nat, fit as int);
    }
    fit
}

/// The cells of each part of `all` that starts where it starts, the shortest one first.
fn measure_prefixes(all: &Vec<char>) -> (counts: Vec<usize>)
    ensures
        count_views(counts@) == prefix_cells(all@),
        counts@.len() == all@.len(),
{
    let mut counts: Vec<usize> = Vec::new();
    let mut end: usize = 0;
    while end < all.len()
        invariant
            end <= all@.len(),
            counts@.len() == end,
            forall|i: int|
                0 <= i < end ==> #[trigger] counts@[i] == display_cells(all@.take(i + 1)),
        decreases all@.len() - end,
    {
        let prefix: String = collect(all.as_slice(), 0, end + 1);
        assert(prefix@ =~= all@.take(end + 1));
        counts.push(cells(prefix.as_str()));
        end += 1;
    }
    assert(count_views(counts@) =~= prefix_cells(all@));
    counts
}

/// Inert text takes a cell for each character, and parts nothing from a space behind it.
proof fn lemma_inert_cells(text: Seq<char>, count: nat, dots: Seq<char>)
    requires
        forall|gap: Seq<char>|
            all_inert(gap) ==> #[trigger] display_cells(text + gap) == count + gap.len(),
        forall|gap: Seq<char>, rest: Seq<char>|
            all_inert(gap) && gap.len() > 0 ==> #[trigger] display_cells(text + gap + rest) == count
                + gap.len() + display_cells(rest),
        all_inert(dots),
    ensures
        display_cells(dots) == dots.len(),
        forall|rest: Seq<char>| #[trigger]
            display_cells(dots + seq![' '] + rest) == dots.len() + 1 + display_cells(rest),
{
    let gap = seq!['.'];
    assert forall|rest: Seq<char>| #[trigger]
        display_cells(dots + seq![' '] + rest) == dots.len() + 1 + display_cells(rest) by {
        let longer = gap + dots + seq![' '];
        assert(all_inert(longer));
        assert(text + gap + (dots + seq![' '] + rest) =~= text + longer + rest);
        assert(display_cells(text + longer + rest) == count + longer.len() + display_cells(rest));
        assert(display_cells(text + gap + (dots + seq![' '] + rest)) == count + 1 + display_cells(
            dots + seq![' '] + rest,
        ));
    }
    assert(text + gap + dots =~= text + (gap + dots));
    assert(all_inert(gap + dots));
    assert(display_cells(text + gap + dots) == count + 1 + display_cells(dots));
    assert(display_cells(text + (gap + dots)) == count + (gap + dots).len());
}

/// Spaces and then dots are inert.
proof fn lemma_filler_is_inert(spaces: nat)
    ensures
        all_inert(text::repeated(' ', spaces) + "..."@),
        all_inert(text::repeated(' ', spaces)),
        "..."@.len() == 3,
{
    reveal_strlit("...");
}

/// `text` as it is shown in `limit` cells.
pub fn truncate_end(text: &str, limit: usize) -> (shown: String)
    ensures
        shown@ == truncated(text@, limit as nat),
        display_cells(shown@) == shown_cells(text@, limit as nat),
        forall|rest: Seq<char>| #[trigger]
            display_cells(shown@ + seq![' '] + rest) == display_cells(shown@) + 1 + display_cells(
                rest,
            ),
{
    let count: usize = cells(text);
    if count <= limit {
        assert(all_inert(seq![' ']));
        return text.to_owned();
    }
    if limit <= 3 {
        let dots: String = repeat('.', limit);
        proof {
            lemma_inert_cells(text@, count as nat, dots@);
        }
        return dots;
    }
    let room: usize = limit - 3;
    let all: Vec<char> = characters(text);
    let counts: Vec<usize> = measure_prefixes(&all);
    let end: usize = count_fitting(counts.as_slice(), room);
    let mut shown: String = collect(all.as_slice(), 0, end);
    let ghost kept = shown@;
    assert(kept =~= text@.take(end as int));
    let taken: usize = cells(shown.as_str());
    assert(taken <= room) by {
        if end == 0 {
            assert(all_printable(kept));
        } else {
            assert(count_views(counts@)[end - 1] == prefix_cells(text@)[end - 1]);
        }
    }
    shown.append(repeat(' ', room - taken).as_str());
    shown.append("...");
    proof {
        let spaces = (room - taken) as nat;
        lemma_filler_is_inert(spaces);
        let filler = text::repeated(' ', spaces) + "..."@;
        assert(shown@ =~= kept + filler);
        assert(shown@ =~= truncated(text@, limit as nat));
        assert forall|rest: Seq<char>| #[trigger]
            display_cells(shown@ + seq![' '] + rest) == limit + 1 + display_cells(rest) by {
            let gap = filler + seq![' '];
            assert(all_inert(gap));
            assert(shown@ + seq![' '] + rest =~= kept + gap + rest);
        }
    }
    shown
}

/// `text` as it is shown in `limit` cells, with spaces behind it where it takes fewer.
pub open spec fn padded(text: Seq<char>, limit: nat) -> Seq<char> {
    truncated(text, limit) + text::repeated(
        ' ',
        (limit - display_cells(truncated(text, limit))) as nat,
    )
}

/// `text` as it is shown in exactly `limit` cells, whatever follows it behind a space.
pub fn pad_end(text: &str, limit: usize) -> (shown: String)
    ensures
        shown@ == padded(text@, limit as nat),
        display_cells(shown@) == limit,
        forall|rest: Seq<char>| #[trigger]
            display_cells(shown@ + seq![' '] + rest) == limit + 1 + display_cells(rest),
{
    let mut shown: String = truncate_end(text, limit);
    let ghost cut = shown@;
    let taken: usize = cells(shown.as_str());
    shown.append(repeat(' ', limit - taken).as_str());
    proof {
        let spaces = text::repeated(' ', (limit - taken) as nat);
        lemma_filler_is_inert((limit - taken) as nat);
        assert(shown@ == cut + spaces);
        assert forall|rest: Seq<char>| #[trigger]
            display_cells(shown@ + seq![' '] + rest) == limit + 1 + display_cells(rest) by {
            let gap = spaces + seq![' '];
            assert(all_inert(gap));
            assert(shown@ + seq![' '] + rest =~= cut + gap + rest);
        }
    }
    shown
}

} // verus!

//! A text file as a sequence of lines, each with the ending it has in the file.

use vstd::prelude::*;
use vstd::slice::slice_subrange;
use vstd::slice::slice_to_vec;

use crate::bytes::{CARRIAGE_RETURN, LINE_FEED};

verus! {

/// A line: its content and the bytes that end it.
pub ghost struct LineView {
    pub content: Seq<u8>,
    pub ending: Seq<u8>,
}

/// A line: its content and the bytes that end it, which are a line feed, a carriage return
/// with a line feed, or nothing at the end of a file.
#[derive(Debug)]
pub struct Line {
    pub content: Vec<u8>,
    pub ending: Vec<u8>,
}

impl View for Line {
    type V = LineView;

    open spec fn view(&self) -> LineView {
        LineView { content: self.content@, ending: self.ending@ }
    }
}

/// The views of `lines`.
pub open spec fn line_views(lines: Seq<Line>) -> Seq<LineView> {
    lines.map_values(|line: Line| line@)
}

/// The ending of a Unix line.
pub open spec fn line_feed() -> Seq<u8> {
    seq![LINE_FEED]
}

/// The ending of a DOS line.
pub open spec fn carriage_return_line_feed() -> Seq<u8> {
    seq![CARRIAGE_RETURN, LINE_FEED]
}

/// Where the first line feed of `text` stands, or the length of `text` if it has none.
pub open spec fn feed_position(text: Seq<u8>) -> int
    decreases text.len(),
{
    if text.len() == 0 || text.first() == LINE_FEED {
        0
    } else {
        1 + feed_position(text.drop_first())
    }
}

/// The line whose bytes before its line feed are `raw`.
pub open spec fn line_before_feed(raw: Seq<u8>) -> LineView {
    if raw.len() > 0 && raw.last() == CARRIAGE_RETURN {
        LineView { content: raw.drop_last(), ending: carriage_return_line_feed() }
    } else {
        LineView { content: raw, ending: line_feed() }
    }
}

/// The lines of `text`.
pub open spec fn split_lines(text: Seq<u8>) -> Seq<LineView>
    decreases text.len(),
    via split_lines_decreases
{
    if text.len() == 0 {
        seq![]
    } else if feed_position(text) >= text.len() {
        seq![LineView { content: text, ending: seq![] }]
    } else {
        seq![line_before_feed(text.take(feed_position(text)))] + split_lines(
            text.skip(feed_position(text) + 1),
        )
    }
}

#[via_fn]
proof fn split_lines_decreases(text: Seq<u8>) {
    lemma_feed_position(text);
}

/// The text whose lines are `lines`.
pub open spec fn join_lines(lines: Seq<LineView>) -> Seq<u8>
    decreases lines.len(),
{
    if lines.len() == 0 {
        seq![]
    } else {
        lines[0].content + lines[0].ending + join_lines(lines.drop_first())
    }
}

/// The line ends with a line feed, and its content is all that stands before the ending.
pub open spec fn is_terminated(line: LineView) -> bool {
    &&& !line.content.contains(LINE_FEED)
    &&& line.ending == carriage_return_line_feed() || (line.ending == line_feed() && !(
    line.content.len() > 0 && line.content.last() == CARRIAGE_RETURN))
}

/// The line is the unterminated rest of a file.
pub open spec fn is_rest(line: LineView) -> bool {
    line.content.len() > 0 && !line.content.contains(LINE_FEED) && line.ending == Seq::<
        u8,
    >::empty()
}

/// `lines` are the lines of some text.
pub open spec fn are_lines(lines: Seq<LineView>) -> bool {
    &&& forall|i: int| 0 <= i < lines.len() - 1 ==> is_terminated(#[trigger] lines[i])
    &&& lines.len() > 0 ==> is_terminated(lines.last()) || is_rest(lines.last())
}

/// The line as it reads once a carriage return before its line feed counts as its ending.
pub open spec fn tidy(line: LineView) -> LineView {
    if line.ending == line_feed() && line.content.len() > 0 && line.content.last()
        == CARRIAGE_RETURN {
        LineView { content: line.content.drop_last(), ending: carriage_return_line_feed() }
    } else {
        line
    }
}

/// The first line feed is where the position says, and no line feed stands before it.
pub proof fn lemma_feed_position(text: Seq<u8>)
    ensures
        0 <= feed_position(text) <= text.len(),
        forall|i: int| 0 <= i < feed_position(text) ==> #[trigger] text[i] != LINE_FEED,
        feed_position(text) < text.len() ==> text[feed_position(text)] == LINE_FEED,
    decreases text.len(),
{
    if text.len() == 0 || text.first() == LINE_FEED {
    } else {
        let rest = text.drop_first();
        lemma_feed_position(rest);
        assert forall|i: int| 0 <= i < feed_position(text) implies #[trigger] text[i]
            != LINE_FEED by {
            if i > 0 {
                assert(text[i] == rest[i - 1]);
            }
        }
    }
}

/// A position that fits the description of the first line feed is that of the first line feed.
proof fn lemma_feed_position_unique(text: Seq<u8>, position: int)
    requires
        0 <= position <= text.len(),
        forall|i: int| 0 <= i < position ==> #[trigger] text[i] != LINE_FEED,
        position < text.len() ==> text[position] == LINE_FEED,
    ensures
        feed_position(text) == position,
{
    lemma_feed_position(text);
    if feed_position(text) < position {
        assert(text[feed_position(text)] != LINE_FEED);
    }
    if position < feed_position(text) {
        assert(text[position] != LINE_FEED);
    }
}

/// Joining distributes over concatenation.
pub proof fn lemma_join_concat(left: Seq<LineView>, right: Seq<LineView>)
    ensures
        join_lines(left + right) == join_lines(left) + join_lines(right),
    decreases left.len(),
{
    if left.len() == 0 {
        assert(left + right =~= right);
        assert(join_lines(left) + join_lines(right) =~= join_lines(right));
    } else {
        lemma_join_concat(left.drop_first(), right);
        assert((left + right).drop_first() =~= left.drop_first() + right);
        assert(join_lines(left + right) =~= join_lines(left) + join_lines(right));
    }
}

/// The lines of a text make up that text.
pub proof fn lemma_join_split(text: Seq<u8>)
    ensures
        join_lines(split_lines(text)) == text,
    decreases text.len(),
{
    lemma_feed_position(text);
    if text.len() == 0 {
        assert(join_lines(split_lines(text)) =~= text);
    } else if feed_position(text) >= text.len() {
        let lines = split_lines(text);
        assert(lines.drop_first() =~= seq![]);
        assert(join_lines(lines.drop_first()) =~= seq![]);
        assert(join_lines(lines) =~= text);
    } else {
        let at = feed_position(text);
        let rest = text.skip(at + 1);
        lemma_join_split(rest);
        assert(split_lines(text).drop_first() =~= split_lines(rest));
        assert(join_lines(split_lines(text)) =~= text);
    }
}

/// What a text splits into are lines.
pub proof fn lemma_split_are_lines(text: Seq<u8>)
    ensures
        are_lines(split_lines(text)),
        text.len() > 0 ==> split_lines(text).len() > 0,
    decreases text.len(),
{
    lemma_feed_position(text);
    if text.len() == 0 {
    } else if feed_position(text) >= text.len() {
    } else {
        let at = feed_position(text);
        let rest = text.skip(at + 1);
        lemma_split_are_lines(rest);
        let lines = split_lines(text);
        let first = line_before_feed(text.take(at));
        assert(is_terminated(first));
        assert forall|i: int| 0 <= i < lines.len() - 1 implies is_terminated(
            #[trigger] lines[i],
        ) by {
            if i > 0 {
                assert(lines[i] == split_lines(rest)[i - 1]);
            }
        }
        if split_lines(rest).len() > 0 {
            assert(lines.last() == split_lines(rest).last());
        }
    }
}

/// Lines are what their text splits into.
pub proof fn lemma_split_join(lines: Seq<LineView>)
    requires
        are_lines(lines),
    ensures
        split_lines(join_lines(lines)) == lines,
    decreases lines.len(),
{
    let text = join_lines(lines);
    if lines.len() == 0 {
        assert(split_lines(text) =~= lines);
    } else {
        let first = lines[0];
        let rest = lines.drop_first();
        assert forall|i: int| 0 <= i < rest.len() - 1 implies is_terminated(#[trigger] rest[i]) by {
            assert(rest[i] == lines[i + 1]);
        }
        if rest.len() > 0 {
            assert(rest.last() == lines.last());
            assert(is_terminated(lines[0]));
        }
        lemma_split_join(rest);
        if is_terminated(first) {
            let at = first.content.len() + first.ending.len() - 1;
            assert forall|i: int| 0 <= i < at implies #[trigger] text[i] != LINE_FEED by {
                if i < first.content.len() {
                    assert(text[i] == first.content[i]);
                }
            }
            lemma_feed_position_unique(text, at);
            assert(text.skip(at + 1) =~= join_lines(rest));
            assert(line_before_feed(text.take(at)) == first) by {
                if first.ending == line_feed() {
                    assert(text.take(at) =~= first.content);
                } else {
                    assert(text.take(at) =~= first.content.push(CARRIAGE_RETURN));
                    assert(text.take(at).drop_last() =~= first.content);
                }
            }
            assert(split_lines(text) =~= seq![first] + rest);
            assert(lines =~= seq![first] + rest);
        } else {
            assert(rest =~= seq![]);
            assert(text =~= first.content);
            assert forall|i: int| 0 <= i < text.len() implies #[trigger] text[i] != LINE_FEED by {
                assert(text[i] == first.content[i]);
            }
            lemma_feed_position_unique(text, text.len() as int);
            assert(split_lines(text) =~= seq![first]);
            assert(lines =~= seq![first]);
        }
    }
}

/// Tidying lines does not change their text.
pub proof fn lemma_join_tidy(lines: Seq<LineView>)
    ensures
        join_lines(lines.map_values(|line: LineView| tidy(line))) == join_lines(lines),
    decreases lines.len(),
{
    let tidied = lines.map_values(|line: LineView| tidy(line));
    if lines.len() > 0 {
        lemma_join_tidy(lines.drop_first());
        assert(tidied.drop_first() =~= lines.drop_first().map_values(|line: LineView| tidy(line)));
        assert(tidied[0].content + tidied[0].ending =~= lines[0].content + lines[0].ending);
    }
}

/// The lines of `contents`.
pub fn lines(contents: &[u8]) -> (result: Vec<Line>)
    ensures
        line_views(result@) == split_lines(contents@),
{
    let mut result: Vec<Line> = Vec::new();
    let mut start: usize = 0;
    let mut index: usize = 0;
    proof {
        assert(contents@.skip(0) =~= contents@);
        assert(line_views(result@) + split_lines(contents@) =~= split_lines(contents@));
    }
    while index < contents.len()
        invariant
            start <= index <= contents@.len(),
            line_views(result@) + split_lines(contents@.skip(start as int)) == split_lines(
                contents@,
            ),
            forall|i: int| start <= i < index ==> #[trigger] contents@[i] != LINE_FEED,
        decreases contents@.len() - index,
    {
        if contents[index] == LINE_FEED {
            let carriage: bool = index > start && contents[index - 1] == CARRIAGE_RETURN;
            let content_end: usize = if carriage {
                index - 1
            } else {
                index
            };
            let ghost rest = contents@.skip(start as int);
            let ghost before = result@;
            let line: Line = Line {
                content: slice_to_vec(slice_subrange(contents, start, content_end)),
                ending: slice_to_vec(slice_subrange(contents, content_end, index + 1)),
            };
            proof {
                let at = index - start;
                assert forall|i: int| 0 <= i < at implies #[trigger] rest[i] != LINE_FEED by {
                    assert(rest[i] == contents@[start + i]);
                }
                lemma_feed_position_unique(rest, at);
                assert(rest.skip(at + 1) =~= contents@.skip(index + 1));
                assert(rest.take(at) =~= contents@.subrange(start as int, index as int));
                assert(line@.content =~= line_before_feed(rest.take(at)).content);
                assert(line@.ending =~= line_before_feed(rest.take(at)).ending);
            }
            result.push(line);
            start = index + 1;
            proof {
                assert(line_views(result@) =~= line_views(before).push(line@));
                assert(line_views(result@) + split_lines(contents@.skip(start as int))
                    =~= line_views(before) + split_lines(rest));
            }
        }
        index += 1;
    }
    if start < contents.len() {
        let ghost rest = contents@.skip(start as int);
        let ghost before = result@;
        let line: Line = Line {
            content: slice_to_vec(slice_subrange(contents, start, contents.len())),
            ending: Vec::new(),
        };
        proof {
            assert forall|i: int| 0 <= i < rest.len() implies #[trigger] rest[i] != LINE_FEED by {
                assert(rest[i] == contents@[start + i]);
            }
            lemma_feed_position_unique(rest, rest.len() as int);
            assert(line@.content =~= rest);
            assert(line@.ending =~= seq![]);
        }
        result.push(line);
        proof {
            assert(line_views(result@) =~= line_views(before).push(line@));
            assert(line_views(result@) =~= line_views(before) + split_lines(rest));
        }
    } else {
        assert(line_views(result@) =~= line_views(result@) + split_lines(
            contents@.skip(start as int),
        ));
    }
    result
}

/// The text whose lines are `lines`.
pub fn join(lines: &Vec<Line>) -> (text: Vec<u8>)
    ensures
        text@ == join_lines(line_views(lines@)),
{
    let mut text: Vec<u8> = Vec::new();
    let mut index: usize = 0;
    while index < lines.len()
        invariant
            index <= lines@.len(),
            text@ == join_lines(line_views(lines@).take(index as int)),
        decreases lines@.len() - index,
    {
        let ghost before = text@;
        text.extend_from_slice(lines[index].content.as_slice());
        text.extend_from_slice(lines[index].ending.as_slice());
        proof {
            let views = line_views(lines@);
            let one = seq![views[index as int]];
            lemma_join_concat(views.take(index as int), one);
            assert(views.take(index + 1) =~= views.take(index as int) + one);
            assert(one.drop_first() =~= seq![]);
            assert(join_lines(one.drop_first()) =~= seq![]);
            assert(join_lines(one) =~= one[0].content + one[0].ending);
            assert(text@ =~= before + join_lines(one));
        }
        index += 1;
    }
    assert(line_views(lines@).take(index as int) =~= line_views(lines@));
    text
}

} // verus!

//! What holds of every planned edit of a configuration.

use vstd::prelude::*;
use vstd::utf8::*;

use crate::bytes;
use crate::bytes::{CARRIAGE_RETURN, EQUALS, HASH, LINE_FEED};
use crate::config;
use crate::config::{DisableChoice, LineKind, PRESERVED_PREFIX, Problem, ScanView, StateView};
use crate::lines;
use crate::lines::LineView;
use crate::utf8;

verus! {

/// A line of this kind is refused whatever the others are.
pub open spec fn is_bad(kind: LineKind) -> bool {
    kind is MalformedComment || kind is BadCommand || (kind matches LineKind::Preserved(
        problem,
    ) && problem is Some)
}

/// The line names this program, in a comment or not.
pub open spec fn is_rusty(kind: LineKind) -> bool {
    kind == LineKind::Commented || kind == LineKind::Installed
}

/// The scan is that of lines of these kinds: none is bad, and the scan holds the only line of
/// each kind that it holds.
pub open spec fn describes(kinds: Seq<LineKind>, scan: ScanView) -> bool {
    &&& forall|i: int| 0 <= i < kinds.len() ==> !is_bad(#[trigger] kinds[i])
    &&& forall|i: int|
        0 <= i < kinds.len() ==> (#[trigger] kinds[i] is Preserved <==> scan.preserved == Some(i))
    &&& forall|i: int|
        0 <= i < kinds.len() ==> (is_rusty(#[trigger] kinds[i]) <==> scan.rusty == Some(i))
    &&& forall|i: int|
        0 <= i < kinds.len() ==> (#[trigger] kinds[i] == LineKind::Foreign <==> scan.foreign
            == Some(i))
    &&& scan.preserved matches Some(i) ==> 0 <= i < kinds.len()
    &&& scan.rusty matches Some(i) ==> 0 <= i < kinds.len() && scan.disabled == (kinds[i]
        == LineKind::Commented)
    &&& scan.foreign matches Some(i) ==> 0 <= i < kinds.len()
    &&& scan.rusty is None ==> !scan.disabled
}

/// The index, unless it is the one that is left out.
spec fn without(index: Option<int>, left_out: int) -> Option<int> {
    if index == Some(left_out) {
        None
    } else {
        index
    }
}

/// A scan succeeds exactly on the kinds that it describes.
pub proof fn scan_succeeds_exactly_on_described_lines(kinds: Seq<LineKind>, scan: ScanView)
    ensures
        config::scan_kinds(kinds) == Ok::<ScanView, Problem>(scan) <==> describes(kinds, scan),
    decreases kinds.len(),
{
    if kinds.len() > 0 {
        let shorter = kinds.drop_last();
        let last = kinds.len() - 1;
        assert forall|i: int| 0 <= i < shorter.len() implies #[trigger] kinds[i]
            == shorter[i] by {}
        if let Ok(found) = config::scan_kinds(shorter) {
            scan_succeeds_exactly_on_described_lines(shorter, found);
        }
        if config::scan_kinds(kinds) == Ok::<ScanView, Problem>(scan) {
            let found = config::scan_kinds(shorter)->Ok_0;
            assert(describes(shorter, found));
            assert(describes(kinds, scan));
        }
        if describes(kinds, scan) {
            let rusty = without(scan.rusty, last);
            let prior = ScanView {
                rusty,
                disabled: rusty is Some && scan.disabled,
                foreign: without(scan.foreign, last),
                preserved: without(scan.preserved, last),
            };
            assert forall|i: int| 0 <= i < shorter.len() implies (!is_bad(#[trigger] shorter[i])
                && (shorter[i] is Preserved <==> prior.preserved == Some(i)) && (is_rusty(
                shorter[i],
            ) <==> prior.rusty == Some(i)) && (shorter[i] == LineKind::Foreign <==> prior.foreign
                == Some(i))) by {
                assert(kinds[i] == shorter[i]);
            }
            assert(describes(shorter, prior));
            scan_succeeds_exactly_on_described_lines(shorter, prior);
            assert(!is_bad(kinds[last]));
        }
    }
}

/// Removing a last byte of white space does not change what trimming leaves.
proof fn lemma_trim_without_last_space(text: Seq<u8>)
    requires
        text.len() > 0,
        bytes::is_space(text.last()),
    ensures
        bytes::trim(text.drop_last()) == bytes::trim(text),
        bytes::trim(text).len() > 0 ==> bytes::trim_start(text.drop_last()) == bytes::trim_start(
            text,
        ).drop_last(),
        bytes::trim(text).len() > 0 ==> bytes::trim_start(text).len() > bytes::trim(text).len(),
    decreases text.len(),
{
    if bytes::is_space(text.first()) && text.len() > 1 {
        let rest = text.drop_first();
        assert(rest.last() == text.last());
        lemma_trim_without_last_space(rest);
        assert(text.drop_last().drop_first() =~= rest.drop_last());
        assert(text.drop_last().first() == text.first());
        assert(bytes::trim_start(text) == bytes::trim_start(rest));
        assert(bytes::trim_start(text.drop_last()) == bytes::trim_start(rest.drop_last()));
    } else if bytes::is_space(text.first()) {
        assert(text.drop_first() =~= seq![]);
        assert(text.drop_last() =~= seq![]);
    } else {
        assert(bytes::trim_start(text) == text);
        assert(text.drop_last().first() == text.first());
        assert(bytes::trim_start(text.drop_last()) == text.drop_last());
        assert(bytes::trim_end(text) == bytes::trim_end(text.drop_last()));
        bytes::lemma_trim_end(text.drop_last());
    }
}

/// White space at the end of a line does not change what the line is.
pub proof fn trailing_space_does_not_change_the_kind(content: Seq<u8>, executable: Seq<char>)
    requires
        content.len() > 0,
        bytes::is_space(content.last()),
    ensures
        config::line_kind(content.drop_last(), executable) == config::line_kind(
            content,
            executable,
        ),
{
    lemma_trim_without_last_space(content);
    let prefix = encode_utf8(PRESERVED_PREFIX@);
    if bytes::has_prefix(bytes::trim(content), prefix) {
        lemma_preserved_prefix();
        bytes::lemma_trim_end(bytes::trim_start(content));
        let start = bytes::trim_start(content);
        if bytes::trim(content).len() == prefix.len() {
            assert(bytes::trim(content).take(prefix.len() as int) =~= bytes::trim(content));
            assert(false);
        }
        assert(config::payload(content.drop_last()) =~= config::payload(content).drop_last());
        assert(config::payload(content).last() == start.last());
        assert(start.last() == content.last()) by {
            bytes::lemma_trim_start(content);
        }
        lemma_trim_without_last_space(config::payload(content));
    }
}

/// The words that set a downloader aside start with a hash sign and end with a space.
proof fn lemma_preserved_prefix()
    ensures
        ({
            let prefix = encode_utf8(PRESERVED_PREFIX@);
            &&& prefix.len() > 1
            &&& prefix[0] == HASH
            &&& prefix[1] == HASH
            &&& bytes::is_space(prefix.last())
            &&& !prefix.contains(LINE_FEED)
        }),
{
    reveal_strlit("## Pre-RustyPac XferCommand ## ");
    let text = PRESERVED_PREFIX@;
    is_ascii_chars_encode_utf8(text);
    assert(text[0] == '#');
    assert(text[1] == '#');
    assert(text[text.len() - 1] == ' ');
    assert(!text.contains('\n'));
    utf8::lemma_encode_without_feed(text);
}

/// All bytes of `text` are white space.
spec fn all_space(text: Seq<u8>) -> bool {
    forall|i: int| 0 <= i < text.len() ==> bytes::is_space(#[trigger] text[i])
}

/// Trimming the start removes exactly the white space before the first other byte.
proof fn lemma_trim_start_of_indented(indent: Seq<u8>, core: Seq<u8>)
    requires
        all_space(indent),
        core.len() > 0,
        !bytes::is_space(core[0]),
    ensures
        bytes::trim_start(indent + core) == core,
        bytes::indentation(indent + core) == indent,
    decreases indent.len(),
{
    if indent.len() == 0 {
        assert(indent + core =~= core);
    } else {
        assert forall|i: int| 0 <= i < indent.drop_first().len() implies bytes::is_space(
            #[trigger] indent.drop_first()[i],
        ) by {
            assert(indent.drop_first()[i] == indent[i + 1]);
        }
        lemma_trim_start_of_indented(indent.drop_first(), core);
        assert((indent + core).drop_first() =~= indent.drop_first() + core);
        assert(bytes::is_space(indent[0]));
    }
    assert((indent + core).take(indent.len() as int) =~= indent);
}

/// Trimming removes exactly the white space before text with a visible first and last byte.
proof fn lemma_trim_of_indented(indent: Seq<u8>, core: Seq<u8>)
    requires
        all_space(indent),
        core.len() > 0,
        !bytes::is_space(core[0]),
        !bytes::is_space(core.last()),
    ensures
        bytes::trim_start(indent + core) == core,
        bytes::trim(indent + core) == core,
        bytes::indentation(indent + core) == indent,
{
    lemma_trim_start_of_indented(indent, core);
}

/// Text with a byte that is not white space is not trimmed to nothing.
proof fn lemma_visible_text_is_not_trimmed_away(text: Seq<u8>, at: int)
    requires
        0 <= at < text.len(),
        !bytes::is_space(text[at]),
    ensures
        bytes::trim(text).len() > 0,
{
    bytes::lemma_trim_start(text);
    let start = bytes::trim_start(text);
    bytes::lemma_trim_end(start);
    let cut = text.len() - start.len();
    if bytes::trim(text).len() == 0 {
        if at < cut {
            assert(bytes::is_space(text[at]));
        } else {
            assert(start[at - cut] == text[at]);
            assert(bytes::is_space(start[at - cut]));
        }
    }
}

/// The option's name, byte by byte as far as the laws need it.
proof fn lemma_option_name()
    ensures
        ({
            let name = encode_utf8(config::XFER_COMMAND@);
            &&& name.len() == 11
            &&& name[0] == 88
        }),
{
    reveal_strlit("XferCommand");
    let text = config::XFER_COMMAND@;
    is_ascii_chars_encode_utf8(text);
    assert(text[0] == 'X');
}

/// The line that names a program is a command, starts and ends visibly, and stays on one line.
pub proof fn lemma_command_bytes(executable: Seq<char>)
    ensures
        ({
            let command = config::command_bytes(executable);
            &&& command.len() > 11
            &&& command[0] == 88
            &&& !bytes::is_space(command.last())
            &&& command.last() != CARRIAGE_RETURN
            &&& config::names_option(command)
            &&& config::command_problem(command) is None
            &&& !executable.contains('\n') ==> !command.contains(LINE_FEED)
        }),
{
    let head = "XferCommand = "@;
    let tail = " %u %o"@;
    let name = config::XFER_COMMAND@;
    reveal_strlit("XferCommand = ");
    reveal_strlit(" %u %o");
    reveal_strlit("XferCommand");
    is_ascii_chars_encode_utf8(head);
    is_ascii_chars_encode_utf8(tail);
    is_ascii_chars_encode_utf8(name);
    utf8::lemma_encode_concat(head, executable);
    utf8::lemma_encode_concat(head + executable, tail);
    let first = encode_utf8(head);
    let middle = encode_utf8(executable);
    let last = encode_utf8(tail);
    let command = config::command_bytes(executable);
    assert(command == first + middle + last);
    assert(head[0] == 'X' && head[11] == ' ' && head[12] == '=');
    assert(tail[1] == '%' && tail[5] == 'o');
    assert(command.last() == last[5]);
    assert(command.take(11) =~= encode_utf8(name)) by {
        assert forall|i: int| 0 <= i < 11 implies command[i] == encode_utf8(name)[i] by {
            assert(head[i] == name[i]);
        }
    }
    let after = command.skip(11);
    assert(after[0] == first[11]);
    assert(after.drop_first() =~= command.skip(12));
    assert(command.skip(12)[0] == first[12]);
    reveal_with_fuel(bytes::trim_start, 2);
    let rest = command.skip(12);
    assert(bytes::trim_start(after) == rest);
    let value = rest.skip(1);
    let at = value.len() - 5;
    assert(value[at] == last[1]);
    lemma_visible_text_is_not_trimmed_away(value, at);
    if !executable.contains('\n') {
        assert(!head.contains('\n'));
        assert(!tail.contains('\n'));
        utf8::lemma_encode_without_feed(head);
        utf8::lemma_encode_without_feed(executable);
        utf8::lemma_encode_without_feed(tail);
        assert forall|i: int| 0 <= i < command.len() implies command[i] != LINE_FEED by {
            if i < first.len() {
                assert(first.contains(first[i]));
            } else if i < first.len() + middle.len() {
                assert(middle.contains(middle[i - first.len()]));
            } else {
                assert(last.contains(last[i - first.len() - middle.len()]));
            }
        }
    }
}

/// A line that a plan enables names the program.
proof fn lemma_enabled_kind(content: Seq<u8>, executable: Seq<char>)
    ensures
        config::line_kind(config::enabled_content(content, executable), executable)
            == LineKind::Installed,
        bytes::trim(config::enabled_content(content, executable)) == config::command_bytes(
            executable,
        ),
        bytes::indentation(config::enabled_content(content, executable)) == bytes::indentation(
            content,
        ),
{
    let command = config::command_bytes(executable);
    lemma_command_bytes(executable);
    lemma_preserved_prefix();
    bytes::lemma_trim_start(content);
    lemma_trim_of_indented(bytes::indentation(content), command);
    let prefix = encode_utf8(PRESERVED_PREFIX@);
    if bytes::has_prefix(command, prefix) {
        assert(command.take(prefix.len() as int)[0] == command[0]);
    }
}

/// A line that a plan inserts names the program.
proof fn lemma_inserted_kind(executable: Seq<char>)
    ensures
        config::line_kind(config::command_bytes(executable), executable) == LineKind::Installed,
{
    lemma_enabled_kind(seq![], executable);
    assert(config::enabled_content(seq![], executable) =~= config::command_bytes(executable));
}

/// A line that a plan disables names the program in a comment.
proof fn lemma_disabled_kind(content: Seq<u8>, executable: Seq<char>)
    ensures
        config::line_kind(config::disabled_content(content, executable), executable)
            == LineKind::Commented,
        bytes::indentation(config::disabled_content(content, executable)) == bytes::indentation(
            content,
        ),
{
    let command = config::command_bytes(executable);
    let comment = seq![HASH] + command;
    lemma_command_bytes(executable);
    lemma_preserved_prefix();
    bytes::lemma_trim_start(content);
    assert(config::disabled_content(content, executable) =~= bytes::indentation(content)
        + comment);
    assert(comment.last() == command.last());
    lemma_trim_of_indented(bytes::indentation(content), comment);
    let prefix = encode_utf8(PRESERVED_PREFIX@);
    if bytes::has_prefix(comment, prefix) {
        assert(comment.take(prefix.len() as int)[1] == comment[1]);
    }
    assert(comment.skip(1) =~= command);
    assert(bytes::trim_start(command) == command);
}

/// Trimming leaves what stands before a visible byte, but for white space at the start.
proof fn lemma_prefix_survives_trimming(prefix: Seq<u8>, content: Seq<u8>, at: int)
    requires
        prefix.len() > 0,
        !bytes::is_space(prefix[0]),
        0 <= at < content.len(),
        !bytes::is_space(content[at]),
    ensures
        bytes::trim_start(prefix + content) == prefix + content,
        bytes::has_prefix(bytes::trim(prefix + content), prefix),
{
    let text = prefix + content;
    assert(text.first() == prefix[0]);
    assert(bytes::trim_start(text) == text);
    bytes::lemma_trim_end(text);
    let kept = bytes::trim_end(text);
    assert(text[prefix.len() + at] == content[at]);
    assert(kept.len() > prefix.len() + at);
    assert(kept.take(prefix.len() as int) =~= prefix);
}

/// A downloader that a plan sets aside is preserved as it stands.
proof fn lemma_preserved_kind(content: Seq<u8>, executable: Seq<char>)
    requires
        config::line_kind(content, executable) == LineKind::Foreign,
    ensures
        config::line_kind(config::preserved_content(content), executable) == LineKind::Preserved(
            None,
        ),
        config::payload(config::preserved_content(content)) == content,
{
    let prefix = encode_utf8(PRESERVED_PREFIX@);
    let text = bytes::trim(content);
    assert(config::names_option(text) && config::command_problem(text) is None);
    assert(text.len() > 0) by {
        lemma_option_name();
    }
    let start = bytes::trim_start(content);
    let cut = content.len() - start.len();
    assert(0 <= cut < content.len() && !bytes::is_space(content[cut])) by {
        bytes::lemma_trim_start(content);
        bytes::lemma_trim_end(start);
    }
    lemma_preserved_prefix();
    lemma_prefix_survives_trimming(prefix, content, cut);
    assert((prefix + content).skip(prefix.len() as int) =~= content);
}

/// A downloader that a plan names again is a command.
proof fn lemma_restored_kind(content: Seq<u8>, executable: Seq<char>)
    requires
        config::line_kind(content, executable) == LineKind::Preserved(None),
    ensures
        config::line_kind(config::payload(content), executable) == (if bytes::trim(
            config::payload(content),
        ) == config::command_bytes(executable) {
            LineKind::Installed
        } else {
            LineKind::Foreign
        }),
{
    let text = bytes::trim(config::payload(content));
    lemma_option_name();
    lemma_preserved_prefix();
    assert(config::names_option(text));
    assert(text[0] == text.take(11)[0]);
    let prefix = encode_utf8(PRESERVED_PREFIX@);
    if bytes::has_prefix(text, prefix) {
        assert(text.take(prefix.len() as int)[0] == text[0]);
    }
}

/// The line ends with a line feed, maybe after a carriage return.
spec fn is_ended(line: LineView) -> bool {
    line.ending == lines::line_feed() || line.ending == lines::carriage_return_line_feed()
}

/// Lines without a line feed in their content, all ended but maybe the last.
spec fn are_loose(lines: Seq<LineView>) -> bool {
    &&& forall|i: int|
        0 <= i < lines.len() ==> !(#[trigger] lines[i]).content.contains(LINE_FEED)
    &&& forall|i: int| 0 <= i < lines.len() - 1 ==> is_ended(#[trigger] lines[i])
    &&& lines.len() > 0 ==> is_ended(lines.last()) || lines::is_rest(lines.last())
}

/// The lines, each tidied.
spec fn tidied(lines: Seq<LineView>) -> Seq<LineView> {
    lines.map_values(|line: LineView| lines::tidy(line))
}

/// Loose lines split as they were joined, once a carriage return counts as part of an ending.
proof fn lemma_split_loose(loose: Seq<LineView>)
    requires
        are_loose(loose),
    ensures
        lines::split_lines(lines::join_lines(loose)) == tidied(loose),
{
    let tidy = tidied(loose);
    assert forall|i: int| 0 <= i < loose.len() && is_ended(loose[i]) implies lines::is_terminated(
        #[trigger] tidy[i],
    ) by {
        assert(!loose[i].content.contains(LINE_FEED));
        if tidy[i].content.contains(LINE_FEED) {
            let at = tidy[i].content.index_of(LINE_FEED);
            assert(loose[i].content[at] == LINE_FEED);
        }
    }
    if loose.len() > 0 {
        assert(tidy.last() == lines::tidy(loose.last()));
    }
    assert(lines::are_lines(tidy));
    lines::lemma_join_tidy(loose);
    lines::lemma_split_join(tidy);
}

/// Tidying lines does not change what they are.
proof fn lemma_kinds_of_tidied(loose: Seq<LineView>, executable: Seq<char>)
    ensures
        config::line_kinds(tidied(loose), executable) == config::line_kinds(loose, executable),
{
    let left = config::line_kinds(tidied(loose), executable);
    let right = config::line_kinds(loose, executable);
    assert forall|i: int| 0 <= i < loose.len() implies left[i] == right[i] by {
        if tidied(loose)[i] != loose[i] {
            trailing_space_does_not_change_the_kind(loose[i].content, executable);
        }
    }
    assert(left =~= right);
}

/// Lines of a text are loose.
proof fn lemma_split_is_loose(text: Seq<u8>)
    ensures
        are_loose(lines::split_lines(text)),
{
    lines::lemma_split_are_lines(text);
    let all = lines::split_lines(text);
    assert forall|i: int| 0 <= i < all.len() implies !(#[trigger] all[i]).content.contains(
        LINE_FEED,
    ) by {
        if i < all.len() - 1 {
            assert(lines::is_terminated(all[i]));
        } else {
            assert(all[i] == all.last());
        }
    }
}

/// Concatenation of text without a line feed.
proof fn lemma_concat_without_feed(left: Seq<u8>, right: Seq<u8>)
    requires
        !left.contains(LINE_FEED),
        !right.contains(LINE_FEED),
    ensures
        !(left + right).contains(LINE_FEED),
{
    assert forall|i: int| 0 <= i < (left + right).len() implies (left + right)[i]
        != LINE_FEED by {
        if i < left.len() {
            assert(left.contains(left[i]));
        } else {
            assert(right.contains(right[i - left.len()]));
        }
    }
}

/// Part of text without a line feed.
proof fn lemma_part_without_feed(text: Seq<u8>, from: int, to: int)
    requires
        0 <= from <= to <= text.len(),
        !text.contains(LINE_FEED),
    ensures
        !text.subrange(from, to).contains(LINE_FEED),
{
    assert forall|i: int| 0 <= i < to - from implies text.subrange(from, to)[i] != LINE_FEED by {
        assert(text.contains(text[from + i]));
    }
}

/// Changing the content of a line to other text on one line leaves loose lines.
proof fn lemma_with_content_is_loose(loose: Seq<LineView>, index: int, content: Seq<u8>)
    requires
        are_loose(loose),
        0 <= index < loose.len(),
        content.len() > 0,
        !content.contains(LINE_FEED),
    ensures
        are_loose(config::with_content(loose, index, content)),
{
    let changed = config::with_content(loose, index, content);
    assert forall|i: int| 0 <= i < changed.len() - 1 implies is_ended(#[trigger] changed[i]) by {
        assert(is_ended(loose[i]));
    }
    if index == loose.len() - 1 {
        assert(changed.last().ending == loose.last().ending);
    }
}

/// Inserting text on one line as a line of its own leaves loose lines.
proof fn lemma_with_line_is_loose(
    loose: Seq<LineView>,
    index: int,
    content: Seq<u8>,
    ending: Seq<u8>,
)
    requires
        are_loose(loose),
        0 <= index <= loose.len(),
        !content.contains(LINE_FEED),
        ending == lines::line_feed() || ending == lines::carriage_return_line_feed(),
    ensures
        are_loose(config::with_line(loose, index, content, ending)),
{
    let changed = config::with_line(loose, index, content, ending);
    assert forall|i: int| 0 <= i < changed.len() implies !(#[trigger] changed[i]).content.contains(
        LINE_FEED,
    ) by {
        if i < index {
            assert(changed[i].content == loose[i].content);
        } else if i > index {
            assert(changed[i] == loose[i - 1]);
        }
    }
    assert forall|i: int| 0 <= i < changed.len() - 1 implies is_ended(#[trigger] changed[i]) by {
        if i < index - 1 {
            assert(changed[i] == loose[i]);
        } else if i == index - 1 {
            if i < loose.len() - 1 {
                assert(is_ended(loose[i]));
            }
        } else if i > index {
            assert(changed[i] == loose[i - 1]);
        }
    }
    if index < loose.len() {
        assert(changed.last() == loose.last());
    }
}

/// An insertion point is one of the places before, between and after the lines.
pub proof fn lemma_insertion_point(kinds: Seq<LineKind>, scan: ScanView)
    requires
        scan.foreign matches Some(index) ==> 0 <= index < kinds.len(),
    ensures
        config::insertion_point(kinds, scan) matches Ok(index) ==> 0 <= index <= kinds.len(),
{
    if scan.foreign is None {
        lemma_options_header(kinds);
        if let Ok(header) = config::options_header(kinds) {
            lemma_section_end(kinds, header + 1);
        }
    }
}

/// The header of the options section is the only line of its kind.
pub proof fn lemma_options_header(kinds: Seq<LineKind>)
    ensures
        match config::options_header(kinds) {
            Ok(header) => {
                &&& 0 <= header < kinds.len()
                &&& forall|i: int|
                    0 <= i < kinds.len() ==> (#[trigger] kinds[i] == LineKind::Options <==> i
                        == header)
            },
            Err(problem) => {
                &&& problem == Problem::NoOptionsSection || problem
                    == Problem::MultipleOptionsSections
                &&& problem == Problem::NoOptionsSection <==> forall|i: int|
                    0 <= i < kinds.len() ==> #[trigger] kinds[i] != LineKind::Options
            },
        },
    decreases kinds.len(),
{
    if kinds.len() > 0 {
        let shorter = kinds.drop_last();
        lemma_options_header(shorter);
        assert forall|i: int| 0 <= i < shorter.len() implies #[trigger] kinds[i]
            == shorter[i] by {}
        assert(kinds.last() == kinds[kinds.len() - 1]);
        match config::options_header(shorter) {
            Ok(header) => {
                assert(kinds[header] == shorter[header]);
            },
            Err(problem) => {
                if problem == Problem::MultipleOptionsSections {
                    let at = choose|i: int|
                        0 <= i < shorter.len() && #[trigger] shorter[i] == LineKind::Options;
                    assert(kinds[at] == LineKind::Options);
                }
            },
        }
    }
}

/// A section ends at the next header of a section or at the end of the file.
proof fn lemma_section_end(kinds: Seq<LineKind>, from: int)
    requires
        0 <= from <= kinds.len(),
    ensures
        ({
            let end = config::section_end(kinds, from);
            &&& from <= end <= kinds.len()
            &&& end < kinds.len() ==> kinds[end] == LineKind::Section
            &&& forall|i: int| from <= i < end ==> #[trigger] kinds[i] != LineKind::Section
        }),
    decreases kinds.len() - from,
{
    if from < kinds.len() && kinds[from] != LineKind::Section {
        lemma_section_end(kinds, from + 1);
    }
}

/// The index of a line once another has been inserted before the one at `point`.
pub open spec fn shifted(index: Option<int>, point: int) -> Option<int> {
    match index {
        Some(position) => Some(
            if position >= point {
                position + 1
            } else {
                position
            },
        ),
        None => None,
    }
}

/// The scan of a configuration once it names this program.
pub open spec fn enabled_scan(kinds: Seq<LineKind>, scan: ScanView) -> ScanView {
    let kept = if scan.foreign is Some {
        scan.foreign
    } else {
        scan.preserved
    };
    match scan.rusty {
        Some(index) => ScanView {
            rusty: Some(index),
            disabled: false,
            foreign: None,
            preserved: kept,
        },
        None => {
            let point = config::insertion_point(kinds, scan)->Ok_0;
            ScanView {
                rusty: Some(point),
                disabled: false,
                foreign: None,
                preserved: shifted(kept, point),
            }
        },
    }
}

/// The lines of an edit split as they were joined, and scan as they were made.
proof fn lemma_edited_lines(edited: Seq<LineView>, executable: Seq<char>, scan: ScanView)
    requires
        are_loose(edited),
        describes(config::line_kinds(edited, executable), scan),
    ensures
        lines::split_lines(lines::join_lines(edited)) == tidied(edited),
        config::scan_kinds(
            config::line_kinds(lines::split_lines(lines::join_lines(edited)), executable),
        ) == Ok::<ScanView, Problem>(scan),
{
    lemma_split_loose(edited);
    lemma_kinds_of_tidied(edited, executable);
    scan_succeeds_exactly_on_described_lines(config::line_kinds(edited, executable), scan);
}

/// The lines that an enabling edit leaves, before they are joined.
#[verifier::rlimit(60)]
proof fn lemma_enabled_lines(contents: Seq<u8>, executable: Seq<char>)
    requires
        !executable.contains('\n'),
    ensures
        ({
            let all = lines::split_lines(contents);
            let kinds = config::line_kinds(all, executable);
            config::analysis(all, executable) matches Ok((scan, state)) ==> state !is Active
                ==> !(scan.foreign is Some && scan.preserved is Some) ==> (config::enabled_lines(
                all,
                scan,
                executable,
                config::newline(contents),
            ) matches Ok(edited) ==> are_loose(edited) && describes(
                config::line_kinds(edited, executable),
                enabled_scan(kinds, scan),
            ))
        }),
{
    let all = lines::split_lines(contents);
    let kinds = config::line_kinds(all, executable);
    let ending = config::newline(contents);
    let command = config::command_bytes(executable);
    lemma_split_is_loose(contents);
    lemma_command_bytes(executable);
    lemma_inserted_kind(executable);
    if let Ok((scan, state)) = config::analysis(all, executable) {
        if state !is Active && !(scan.foreign is Some && scan.preserved is Some) {
            scan_succeeds_exactly_on_described_lines(kinds, scan);
            lemma_insertion_point(kinds, scan);
            let after = enabled_scan(kinds, scan);
            let kept = match scan.foreign {
                Some(index) => config::with_content(
                    all,
                    index,
                    config::preserved_content(all[index].content),
                ),
                None => all,
            };
            let kept_kinds = config::line_kinds(kept, executable);
            if let Some(index) = scan.foreign {
                assert(kinds[index] == config::line_kind(all[index].content, executable));
                lemma_preserved_kind(all[index].content, executable);
                lemma_preserved_prefix();
                lemma_concat_without_feed(encode_utf8(PRESERVED_PREFIX@), all[index].content);
                lemma_with_content_is_loose(
                    all,
                    index,
                    config::preserved_content(all[index].content),
                );
                assert(kept_kinds =~= kinds.update(index, LineKind::Preserved(None)));
            }
            match scan.rusty {
                Some(index) => {
                    let content = all[index].content;
                    let enabled = config::enabled_content(content, executable);
                    lemma_enabled_kind(content, executable);
                    bytes::lemma_trim_start(content);
                    let cut = content.len() - bytes::trim_start(content).len();
                    lemma_part_without_feed(content, 0, cut);
                    assert(content.subrange(0, cut) =~= content.take(cut));
                    lemma_concat_without_feed(bytes::indentation(content), command);
                    lemma_with_content_is_loose(kept, index, enabled);
                    let edited = config::with_content(kept, index, enabled);
                    assert(config::line_kinds(edited, executable) =~= kept_kinds.update(
                        index,
                        LineKind::Installed,
                    ));
                },
                None => {
                    if let Ok(point) = config::insertion_point(kinds, scan) {
                        lemma_with_line_is_loose(kept, point, command, ending);
                        let edited = config::with_line(kept, point, command, ending);
                        assert(config::line_kinds(edited, executable) =~= kept_kinds.insert(
                            point,
                            LineKind::Installed,
                        ));
                        let new_kinds = config::line_kinds(edited, executable);
                        assert forall|i: int|
                            0 <= i < new_kinds.len() implies #[trigger] new_kinds[i] == (if i
                            < point {
                            kept_kinds[i]
                        } else if i == point {
                            LineKind::Installed
                        } else {
                            kept_kinds[i - 1]
                        }) by {}
                    }
                },
            }
        }
    }
}

/// Every edit that enables a program passes the checks that are made before it replaces the
/// configuration: the edited bytes name the program.
pub proof fn enabling_passes_staging(contents: Seq<u8>, executable: Seq<char>)
    requires
        !executable.contains('\n'),
    ensures
        config::enable_plan(contents, executable) matches Ok(plan) ==> {
            &&& config::config_state(plan.replacement, executable) == Ok::<StateView, Problem>(
                StateView::Active,
            )
            &&& config::staged_problem(plan, plan.replacement) is None
        },
{
    let all = lines::split_lines(contents);
    let kinds = config::line_kinds(all, executable);
    lemma_enabled_lines(contents, executable);
    if let Ok((scan, state)) = config::analysis(all, executable) {
        if state !is Active && !(scan.foreign is Some && scan.preserved is Some) {
            if let Ok(edited) = config::enabled_lines(
                all,
                scan,
                executable,
                config::newline(contents),
            ) {
                lemma_edited_lines(edited, executable, enabled_scan(kinds, scan));
            }
        }
    }
}

/// A plan that enables a program changes the configuration exactly when the program is not
/// its downloader yet.
pub proof fn enabling_changes_exactly_inactive_configurations(
    contents: Seq<u8>,
    executable: Seq<char>,
)
    ensures
        config::enable_plan(contents, executable) matches Ok(plan) ==> (plan.replacement
            != plan.original <==> plan.initial !is Active),
{
    if !executable.contains('\n') {
        enabling_passes_staging(contents, executable);
    } else {
        let all = lines::split_lines(contents);
        let kinds = config::line_kinds(all, executable);
        if let Ok((scan, state)) = config::analysis(all, executable) {
            scan_succeeds_exactly_on_described_lines(kinds, scan);
            lemma_insertion_point(kinds, scan);
            lemma_program_on_several_lines_is_not_named(contents, executable, scan);
            let command = config::command_bytes(executable);
            lemma_command_bytes(executable);
            let ending = config::newline(contents);
            lines::lemma_join_split(contents);
            if let Ok(point) = config::insertion_point(kinds, scan) {
                match scan.foreign {
                    Some(index) => {
                        let kept = config::preserved_content(all[index].content);
                        lemma_longer_content(all, index, kept);
                        lemma_longer_with_line(
                            config::with_content(all, index, kept),
                            point,
                            command,
                            ending,
                        );
                    },
                    None => {
                        lemma_longer_with_line(all, point, command, ending);
                    },
                }
            }
        }
    }
}

/// A line that is no shorter than before makes the text no shorter.
proof fn lemma_longer_content(all: Seq<LineView>, index: int, content: Seq<u8>)
    requires
        0 <= index < all.len(),
        content.len() >= all[index].content.len(),
    ensures
        lines::join_lines(config::with_content(all, index, content)).len() >= lines::join_lines(
            all,
        ).len(),
    decreases all.len(),
{
    let changed = config::with_content(all, index, content);
    if index > 0 {
        lemma_longer_content(all.drop_first(), index - 1, content);
        assert(changed.drop_first() =~= config::with_content(all.drop_first(), index - 1, content));
    } else {
        assert(changed.drop_first() =~= all.drop_first());
    }
}

/// One more line that is not empty makes the text longer.
proof fn lemma_longer_with_line(
    all: Seq<LineView>,
    index: int,
    content: Seq<u8>,
    ending: Seq<u8>,
)
    requires
        0 <= index <= all.len(),
        content.len() > 0,
    ensures
        lines::join_lines(config::with_line(all, index, content, ending)).len()
            > lines::join_lines(all).len(),
    decreases all.len(),
{
    let changed = config::with_line(all, index, content, ending);
    if index == 0 {
        assert(changed.drop_first() =~= all);
    } else if index == 1 {
        assert(changed.drop_first().drop_first() =~= all.drop_first());
        reveal_with_fuel(lines::join_lines, 2);
        assert(changed.drop_first()[0] == changed[1]);
    } else {
        lemma_longer_with_line(all.drop_first(), index - 1, content, ending);
        assert(changed.drop_first() =~= config::with_line(
            all.drop_first(),
            index - 1,
            content,
            ending,
        ));
    }
}

/// A program whose name takes several lines is named by none.
proof fn lemma_program_on_several_lines_is_not_named(
    contents: Seq<u8>,
    executable: Seq<char>,
    scan: ScanView,
)
    requires
        executable.contains('\n'),
        describes(config::line_kinds(lines::split_lines(contents), executable), scan),
    ensures
        scan.rusty is None,
{
    let all = lines::split_lines(contents);
    let kinds = config::line_kinds(all, executable);
    if let Some(rusty) = scan.rusty {
        let content = all[rusty].content;
        assert(kinds[rusty] == config::line_kind(content, executable));
        assert(is_rusty(kinds[rusty]));
        lemma_split_is_loose(contents);
        lemma_named_program_is_one_line(content, executable);
    }
}

/// A program that a line names has a name on one line, if the line is one.
proof fn lemma_named_program_is_one_line(content: Seq<u8>, executable: Seq<char>)
    requires
        is_rusty(config::line_kind(content, executable)),
        !content.contains(LINE_FEED),
    ensures
        !executable.contains('\n'),
{
    if executable.contains('\n') {
        let at = executable.index_of('\n');
        let head = "XferCommand = "@;
        assert(config::command_text(executable)[head.len() + at] == '\n');
        utf8::lemma_encode_with_feed(config::command_text(executable));
        let command = config::command_bytes(executable);
        let place = command.index_of(LINE_FEED);
        let start = bytes::trim_start(content);
        let text = bytes::trim(content);
        bytes::lemma_trim_start(content);
        bytes::lemma_trim_end(start);
        let gone = content.len() - start.len();
        if config::line_kind(content, executable) == LineKind::Installed {
            assert(start[place] == text[place]);
            assert(content[gone + place] == LINE_FEED);
        } else {
            let rest = text.skip(1);
            bytes::lemma_trim_start(rest);
            let cut = rest.len() - bytes::trim_start(rest).len();
            assert(bytes::trim_start(rest)[place] == rest[cut + place]);
            assert(rest[cut + place] == text[1 + cut + place]);
            assert(start[1 + cut + place] == text[1 + cut + place]);
            assert(content[gone + 1 + cut + place] == LINE_FEED);
        }
    }
}

/// Enabling a program twice is enabling it once.
pub proof fn enabling_twice_changes_nothing_more(contents: Seq<u8>, executable: Seq<char>)
    requires
        !executable.contains('\n'),
    ensures
        config::enable_plan(contents, executable) matches Ok(plan) ==> (config::enable_plan(
            plan.replacement,
            executable,
        ) matches Ok(again) && again.replacement == plan.replacement && again.initial is Active),
{
    enabling_passes_staging(contents, executable);
}

/// The configuration names this program, and the downloader that it preserves is this program
/// too.
pub open spec fn preserves_itself(contents: Seq<u8>, executable: Seq<char>) -> bool {
    let all = lines::split_lines(contents);
    config::analysis(all, executable) matches Ok((scan, state)) && state is Active
        && scan.preserved is Some && bytes::trim(
        config::payload(all[scan.preserved->0].content),
    ) == config::command_bytes(executable)
}

/// The scan of a configuration once it does not name this program any more.
pub open spec fn disabled_scan(scan: ScanView, choice: DisableChoice) -> ScanView {
    if choice == DisableChoice::Existing && scan.preserved is Some {
        ScanView { disabled: true, foreign: scan.preserved, preserved: None, ..scan }
    } else {
        ScanView { disabled: true, ..scan }
    }
}

/// A line of a text that ends like one of its lines is tidy already.
proof fn lemma_line_with_same_end_is_tidy(all: Seq<LineView>, index: int, content: Seq<u8>)
    requires
        lines::are_lines(all),
        0 <= index < all.len(),
        content.len() > 0,
        content.last() == all[index].content.last() || content.last() != CARRIAGE_RETURN,
        all[index].content.len() > 0,
    ensures
        lines::tidy(LineView { content, ending: all[index].ending }) == (LineView {
            content,
            ending: all[index].ending,
        }),
{
    if index < all.len() - 1 {
        assert(lines::is_terminated(all[index]));
    } else {
        assert(all[index] == all.last());
    }
}

/// A program that a configuration names has a name on one line.
proof fn lemma_active_program_is_one_line(contents: Seq<u8>, executable: Seq<char>)
    requires
        config::config_state(contents, executable) == Ok::<StateView, Problem>(StateView::Active),
    ensures
        !executable.contains('\n'),
{
    let all = lines::split_lines(contents);
    let kinds = config::line_kinds(all, executable);
    let scan = config::analysis(all, executable)->Ok_0.0;
    scan_succeeds_exactly_on_described_lines(kinds, scan);
    let content = all[scan.rusty->0].content;
    assert(kinds[scan.rusty->0] == config::line_kind(content, executable));
    assert(is_rusty(kinds[scan.rusty->0]));
    lemma_split_is_loose(contents);
    lemma_named_program_is_one_line(content, executable);
}

/// The lines that a disabling edit leaves, before they are joined.
#[verifier::rlimit(60)]
proof fn lemma_disabled_lines(contents: Seq<u8>, executable: Seq<char>, choice: DisableChoice)
    ensures
        ({
            let all = lines::split_lines(contents);
            config::analysis(all, executable) matches Ok((scan, state)) ==> state is Active ==> {
                let edited = config::disabled_lines(all, scan, executable, choice);
                &&& are_loose(edited)
                &&& tidied(edited) == edited
                &&& (choice == DisableChoice::Existing ==> !preserves_itself(contents, executable))
                    ==> describes(
                    config::line_kinds(edited, executable),
                    disabled_scan(scan, choice),
                )
            }
        }),
{
    let all = lines::split_lines(contents);
    let kinds = config::line_kinds(all, executable);
    let command = config::command_bytes(executable);
    lemma_split_is_loose(contents);
    lines::lemma_split_are_lines(contents);
    lemma_command_bytes(executable);
    if let Ok((scan, state)) = config::analysis(all, executable) {
        if state is Active {
            scan_succeeds_exactly_on_described_lines(kinds, scan);
            let rusty = scan.rusty->0;
            let content = all[rusty].content;
            let disabled = config::disabled_content(content, executable);
            assert(kinds[rusty] == config::line_kind(content, executable));
            lemma_active_program_is_one_line(contents, executable);
            lemma_disabled_kind(content, executable);
            bytes::lemma_trim_start(content);
            let cut = content.len() - bytes::trim_start(content).len();
            lemma_part_without_feed(content, 0, cut);
            assert(content.subrange(0, cut) =~= content.take(cut));
            lemma_concat_without_feed(bytes::indentation(content), seq![HASH]);
            lemma_concat_without_feed(bytes::indentation(content) + seq![HASH], command);
            lemma_with_content_is_loose(all, rusty, disabled);
            let commented = config::with_content(all, rusty, disabled);
            let commented_kinds = config::line_kinds(commented, executable);
            assert(commented_kinds =~= kinds.update(rusty, LineKind::Commented));
            assert(disabled.last() == command.last());
            bytes::lemma_trim_end(bytes::trim_start(content));
            lemma_line_with_same_end_is_tidy(all, rusty, disabled);
            lemma_lines_are_tidy(all);
            assert(tidied(commented) =~= commented);
            if choice == DisableChoice::Existing && scan.preserved is Some {
                let kept = scan.preserved->0;
                let held = all[kept].content;
                let restored = config::payload(held);
                assert(kinds[kept] == config::line_kind(held, executable));
                lemma_restored_kind(held, executable);
                lemma_payload_is_a_suffix(held, executable);
                lemma_part_without_feed(held, held.len() - restored.len(), held.len() as int);
                lemma_with_content_is_loose(commented, kept, restored);
                let edited = config::with_content(commented, kept, restored);
                assert(config::line_kinds(edited, executable) =~= commented_kinds.update(
                    kept,
                    config::line_kind(restored, executable),
                ));
                lemma_line_with_same_end_is_tidy(all, kept, restored);
                assert(tidied(edited) =~= edited);
            }
        }
    }
}

/// What a preserved line holds is the end of the line.
proof fn lemma_payload_is_a_suffix(content: Seq<u8>, executable: Seq<char>)
    requires
        config::line_kind(content, executable) == LineKind::Preserved(None),
    ensures
        0 < config::payload(content).len() <= content.len(),
        config::payload(content) == content.subrange(
            content.len() - config::payload(content).len(),
            content.len() as int,
        ),
{
    let payload = config::payload(content);
    let prefix = encode_utf8(PRESERVED_PREFIX@);
    config::lemma_prefix_of_trimmed(content, prefix);
    bytes::lemma_trim_start(content);
    lemma_option_name();
    assert(config::names_option(bytes::trim(payload)));
    bytes::lemma_trim_start(payload);
    bytes::lemma_trim_end(bytes::trim_start(payload));
    assert(payload =~= content.subrange(content.len() - payload.len(), content.len() as int));
}

/// The lines of a text are tidy.
proof fn lemma_lines_are_tidy(all: Seq<LineView>)
    requires
        lines::are_lines(all),
    ensures
        forall|i: int| 0 <= i < all.len() ==> lines::tidy(#[trigger] all[i]) == all[i],
{
    assert(lines::line_feed().len() == 1);
    assert(lines::carriage_return_line_feed().len() == 2);
    assert forall|i: int| 0 <= i < all.len() implies lines::tidy(#[trigger] all[i]) == all[i] by {
        if i < all.len() - 1 {
            assert(lines::is_terminated(all[i]));
        } else {
            assert(all[i] == all.last());
        }
    }
}

/// Every edit that disables the program passes the checks that are made before it replaces
/// the configuration: the edited bytes have the planned state. A configuration that preserves
/// this program itself is left out where the preserved downloader is to be named again.
pub proof fn disabling_passes_staging(
    contents: Seq<u8>,
    executable: Seq<char>,
    choice: DisableChoice,
)
    requires
        choice == DisableChoice::Existing ==> !preserves_itself(contents, executable),
    ensures
        config::disable_plan(contents, executable, choice) matches Ok(plan) ==> {
            &&& plan.expected !is Active
            &&& config::config_state(plan.replacement, executable) == Ok::<StateView, Problem>(
                plan.expected,
            )
            &&& config::staged_problem(plan, plan.replacement) is None
        },
{
    let all = lines::split_lines(contents);
    let kinds = config::line_kinds(all, executable);
    lemma_disabled_lines(contents, executable, choice);
    if let Ok((scan, state)) = config::analysis(all, executable) {
        if state is Active {
            scan_succeeds_exactly_on_described_lines(kinds, scan);
            let edited = config::disabled_lines(all, scan, executable, choice);
            lemma_edited_lines(edited, executable, disabled_scan(scan, choice));
        }
    }
}

/// A plan that disables the program changes the configuration exactly when the program is its
/// downloader.
pub proof fn disabling_changes_exactly_active_configurations(
    contents: Seq<u8>,
    executable: Seq<char>,
    choice: DisableChoice,
)
    ensures
        config::disable_plan(contents, executable, choice) matches Ok(plan) ==> (plan.replacement
            != plan.original <==> plan.initial is Active),
{
    let all = lines::split_lines(contents);
    let kinds = config::line_kinds(all, executable);
    lemma_disabled_lines(contents, executable, choice);
    if let Ok((scan, state)) = config::analysis(all, executable) {
        if state is Active {
            scan_succeeds_exactly_on_described_lines(kinds, scan);
            let edited = config::disabled_lines(all, scan, executable, choice);
            lemma_split_loose(edited);
            let rusty = scan.rusty->0;
            lemma_disabled_kind(all[rusty].content, executable);
            assert(kinds[rusty] == config::line_kind(all[rusty].content, executable));
            assert(edited[rusty].content == config::disabled_content(
                all[rusty].content,
                executable,
            ));
        }
    }
}

/// Disabling the program twice is disabling it once.
pub proof fn disabling_twice_changes_nothing_more(
    contents: Seq<u8>,
    executable: Seq<char>,
    first: DisableChoice,
    second: DisableChoice,
)
    requires
        first == DisableChoice::Existing ==> !preserves_itself(contents, executable),
    ensures
        config::disable_plan(contents, executable, first) matches Ok(plan) ==> (
        config::disable_plan(plan.replacement, executable, second) matches Ok(again)
            && again.replacement == plan.replacement && again.initial == plan.expected),
{
    disabling_passes_staging(contents, executable, first);
}

/// Disabling the program for the default downloader and enabling it again gives back the very
/// bytes, where no white space follows the command on its line.
pub proof fn enabling_undoes_disabling(contents: Seq<u8>, executable: Seq<char>)
    requires
        config::config_state(contents, executable) == Ok::<StateView, Problem>(StateView::Active),
        ({
            let all = lines::split_lines(contents);
            let rusty = config::analysis(all, executable)->Ok_0.0.rusty->0;
            !bytes::is_space(all[rusty].content.last())
        }),
    ensures
        config::disable_plan(contents, executable, DisableChoice::Default) matches Ok(plan)
            && config::enable_plan(plan.replacement, executable) matches Ok(again)
            && again.replacement == contents,
{
    let all = lines::split_lines(contents);
    let kinds = config::line_kinds(all, executable);
    let choice = DisableChoice::Default;
    let (scan, state) = config::analysis(all, executable)->Ok_0;
    scan_succeeds_exactly_on_described_lines(kinds, scan);
    lemma_disabled_lines(contents, executable, choice);
    let edited = config::disabled_lines(all, scan, executable, choice);
    lemma_edited_lines(edited, executable, disabled_scan(scan, choice));
    let rusty = scan.rusty->0;
    let content = all[rusty].content;
    assert(kinds[rusty] == config::line_kind(content, executable));
    lemma_disabled_kind(content, executable);
    bytes::lemma_trim_start(content);
    lemma_command_bytes(executable);
    let start = bytes::trim_start(content);
    bytes::lemma_trim_end(start);
    assert(start.last() == content.last());
    assert(bytes::trim_end(start) == start);
    assert(config::enabled_content(edited[rusty].content, executable) =~= content);
    assert(config::with_content(edited, rusty, content) =~= all);
    lines::lemma_join_split(contents);
}

/// The line has no ending, and its last byte is a carriage return.
pub open spec fn ends_with_return(line: LineView) -> bool {
    line.ending.len() == 0 && line.content.len() > 0 && line.content.last() == CARRIAGE_RETURN
}

/// What enabling a program and then disabling it in favour of the downloader that was named
/// before leaves: the lines as they were, but for one that names the program in a comment.
pub open spec fn reverted_lines(
    all: Seq<LineView>,
    scan: ScanView,
    executable: Seq<char>,
    ending: Seq<u8>,
) -> Seq<LineView> {
    match scan.rusty {
        Some(index) => config::with_content(
            all,
            index,
            config::disabled_content(all[index].content, executable),
        ),
        None => config::with_line(
            all,
            scan.foreign->0 + 1,
            config::disabled_content(seq![], executable),
            ending,
        ),
    }
}

/// Enabling a program and then disabling it in favour of the downloader that was named before
/// names that downloader again, on the very line that it had, and leaves every other line but
/// the one of the program as it was. A downloader whose line ends with a carriage return, and
/// with nothing behind it, is left out where a line has to be inserted: once a line feed
/// follows, the carriage return belongs to the ending of the line.
#[verifier::rlimit(80)]
pub proof fn disabling_restores_the_downloader(contents: Seq<u8>, executable: Seq<char>)
    requires
        !executable.contains('\n'),
        config::enable_plan(contents, executable) is Ok,
        config::enable_plan(contents, executable)->Ok_0.initial is Conflicting,
        ({
            let all = lines::split_lines(contents);
            let scan = config::analysis(all, executable)->Ok_0.0;
            scan.rusty is Some || !ends_with_return(all[scan.foreign->0])
        }),
    ensures
        ({
            let enabled = config::enable_plan(contents, executable)->Ok_0;
            let all = lines::split_lines(contents);
            let scan = config::analysis(all, executable)->Ok_0.0;
            let again = DisableChoice::Existing;
            config::disable_plan(enabled.replacement, executable, again) matches Ok(plan)
                && plan.expected == enabled.initial && plan.replacement == lines::join_lines(
                reverted_lines(all, scan, executable, config::newline(contents)),
            )
        }),
{
    let all = lines::split_lines(contents);
    let kinds = config::line_kinds(all, executable);
    let ending = config::newline(contents);
    let (scan, state) = config::analysis(all, executable)->Ok_0;
    let command = config::command_bytes(executable);
    lemma_enabled_lines(contents, executable);
    scan_succeeds_exactly_on_described_lines(kinds, scan);
    let edited = config::enabled_lines(all, scan, executable, ending)->Ok_0;
    let after = enabled_scan(kinds, scan);
    lemma_edited_lines(edited, executable, after);
    let foreign = scan.foreign->0;
    let content = all[foreign].content;
    let kept = config::preserved_content(content);
    assert(kinds[foreign] == config::line_kind(content, executable));
    lemma_preserved_kind(content, executable);
    lemma_command_bytes(executable);
    lines::lemma_split_are_lines(contents);
    lemma_lines_are_tidy(all);
    assert(content.len() > 0) by {
        lemma_option_name();
        bytes::lemma_trim_start(content);
        bytes::lemma_trim_end(bytes::trim_start(content));
    }
    assert(kept.last() == content.last());
    let again = DisableChoice::Existing;
    match scan.rusty {
        Some(rusty) => {
            let old_content = all[rusty].content;
            let enabled = config::enabled_content(old_content, executable);
            assert(kinds[rusty] == config::line_kind(old_content, executable));
            assert(old_content.len() > 0) by {
                bytes::lemma_trim_start(old_content);
                bytes::lemma_trim_end(bytes::trim_start(old_content));
            }
            lemma_enabled_kind(old_content, executable);
            assert(enabled.last() == command.last());
            lemma_line_with_same_end_is_tidy(all, rusty, enabled);
            lemma_line_with_same_end_is_tidy(all, foreign, kept);
            assert(tidied(edited) =~= edited);
            assert(config::disabled_lines(edited, after, executable, again) =~= reverted_lines(
                all,
                scan,
                executable,
                ending,
            ));
        },
        None => {
            let point = foreign + 1;
            lemma_enabled_kind(seq![], executable);
            assert(config::enabled_content(seq![], executable) =~= command);
            assert(command.last() != CARRIAGE_RETURN);
            assert(tidied(edited) =~= edited) by {
                lemma_line_with_same_end_is_tidy(all, foreign, kept);
                assert forall|i: int| 0 <= i < edited.len() implies lines::tidy(
                    #[trigger] edited[i],
                ) == edited[i] by {
                    if i < foreign {
                        assert(edited[i] == all[i]);
                    } else if i > point {
                        assert(edited[i] == all[i - 1]);
                    } else if i == foreign && all[foreign].ending.len() == 0 {
                        assert(foreign == all.len() - 1);
                        assert(kept.last() != CARRIAGE_RETURN);
                    }
                }
            }
            assert(config::disabled_lines(edited, after, executable, again) =~= reverted_lines(
                all,
                scan,
                executable,
                ending,
            ));
        },
    }
}

/// Where the line at `index` stands once a plan has enabled the program.
pub open spec fn moved(kinds: Seq<LineKind>, scan: ScanView, index: int) -> int {
    if scan.rusty is None && index >= config::insertion_point(kinds, scan)->Ok_0 {
        index + 1
    } else {
        index
    }
}

/// The line at `index` is ended by the edit that enables the program, and a carriage return at
/// its end then belongs to the ending.
pub open spec fn loses_return(
    all: Seq<LineView>,
    kinds: Seq<LineKind>,
    scan: ScanView,
    index: int,
) -> bool {
    scan.rusty is None && config::insertion_point(kinds, scan)->Ok_0 == all.len()
        && ends_with_return(all[index])
}

/// Enabling a program adds at most one line, where none named it before. It keeps every line
/// that is neither the one of the program nor the one of the downloader that it replaces, in
/// its place among the others; at most it ends a last line that had no ending. Such a line is
/// left out if its last byte is a carriage return, which would then belong to the ending.
pub proof fn enabling_keeps_other_lines(contents: Seq<u8>, executable: Seq<char>)
    requires
        !executable.contains('\n'),
        config::enable_plan(contents, executable) is Ok,
        config::enable_plan(contents, executable)->Ok_0.initial !is Active,
    ensures
        ({
            let plan = config::enable_plan(contents, executable)->Ok_0;
            let all = lines::split_lines(contents);
            let kinds = config::line_kinds(all, executable);
            let scan = config::analysis(all, executable)->Ok_0.0;
            let edited = lines::split_lines(plan.replacement);
            &&& edited.len() == all.len() + (if scan.rusty is None {
                1int
            } else {
                0int
            })
            &&& forall|index: int|
                0 <= index < all.len() && scan.rusty != Some(index) && scan.foreign != Some(index)
                    && !loses_return(all, kinds, scan, index) ==> {
                    let place = moved(kinds, scan, index);
                    &&& 0 <= place < edited.len()
                    &&& edited[place].content == (#[trigger] all[index]).content
                    &&& all[index].ending.len() > 0 ==> edited[place].ending == all[index].ending
                }
        }),
{
    let all = lines::split_lines(contents);
    let kinds = config::line_kinds(all, executable);
    let ending = config::newline(contents);
    let (scan, state) = config::analysis(all, executable)->Ok_0;
    lemma_enabled_lines(contents, executable);
    scan_succeeds_exactly_on_described_lines(kinds, scan);
    lemma_insertion_point(kinds, scan);
    let edited = config::enabled_lines(all, scan, executable, ending)->Ok_0;
    lemma_edited_lines(edited, executable, enabled_scan(kinds, scan));
    lines::lemma_split_are_lines(contents);
    lemma_lines_are_tidy(all);
    assert forall|index: int|
        0 <= index < all.len() && scan.rusty != Some(index) && scan.foreign != Some(index)
            && !loses_return(all, kinds, scan, index) implies ({
        let place = moved(kinds, scan, index);
        &&& 0 <= place < edited.len()
        &&& tidied(edited)[place].content == (#[trigger] all[index]).content
        &&& all[index].ending.len() > 0 ==> tidied(edited)[place].ending == all[index].ending
    }) by {
        let place = moved(kinds, scan, index);
        assert(edited[place].content == all[index].content);
        if all[index].ending.len() == 0 {
            assert(index == all.len() - 1);
        }
        assert(lines::tidy(edited[place]) == edited[place]);
    }
}

/// The line names this program or another downloader, or holds one that was set aside.
pub open spec fn is_own(kind: LineKind) -> bool {
    kind is Preserved || is_rusty(kind) || kind == LineKind::Foreign
}

/// The contents of all other lines, in their order.
pub open spec fn other_contents(all: Seq<LineView>, executable: Seq<char>) -> Seq<Seq<u8>>
    decreases all.len(),
{
    if all.len() == 0 {
        seq![]
    } else if is_own(config::line_kind(all.last().content, executable)) {
        other_contents(all.drop_last(), executable)
    } else {
        other_contents(all.drop_last(), executable).push(all.last().content)
    }
}

/// Lines that agree but for their own ones have the same other contents.
proof fn lemma_other_contents_agree(
    left: Seq<LineView>,
    right: Seq<LineView>,
    executable: Seq<char>,
)
    requires
        left.len() == right.len(),
        forall|i: int|
            0 <= i < left.len() ==> is_own(
                config::line_kind((#[trigger] left[i]).content, executable),
            ) == is_own(config::line_kind(right[i].content, executable)),
        forall|i: int|
            0 <= i < left.len() && !is_own(
                config::line_kind((#[trigger] left[i]).content, executable),
            ) ==> left[i].content == right[i].content,
    ensures
        other_contents(left, executable) == other_contents(right, executable),
    decreases left.len(),
{
    if left.len() > 0 {
        let fewer = left.drop_last();
        let others = right.drop_last();
        assert forall|i: int| 0 <= i < fewer.len() implies (#[trigger] fewer[i]) == left[i]
            && others[i] == right[i] by {}
        assert(left[left.len() - 1] == left.last());
        lemma_other_contents_agree(fewer, others, executable);
    }
}

/// An own line counts for nothing among the other contents.
proof fn lemma_other_contents_without(all: Seq<LineView>, index: int, executable: Seq<char>)
    requires
        0 <= index < all.len(),
        is_own(config::line_kind(all[index].content, executable)),
    ensures
        other_contents(all.remove(index), executable) == other_contents(all, executable),
    decreases all.len(),
{
    let without = all.remove(index);
    if index == all.len() - 1 {
        assert(without =~= all.drop_last());
    } else {
        lemma_other_contents_without(all.drop_last(), index, executable);
        assert(without.drop_last() =~= all.drop_last().remove(index));
        assert(without.last() == all.last());
    }
}

/// Exactly one line names the program, and not in a comment.
pub open spec fn is_named_once(all: Seq<LineView>, executable: Seq<char>) -> bool {
    let kinds = config::line_kinds(all, executable);
    exists|place: int|
        0 <= place < kinds.len() && #[trigger] kinds[place] == LineKind::Installed && forall|
            i: int,
        |
            0 <= i < kinds.len() && i != place ==> !is_rusty(#[trigger] kinds[i])
}

/// Enabling a program leaves all lines that name no downloader and hold none, byte for byte and
/// in order, adds none to them, and leaves exactly one line that names the program, not in a
/// comment. A last line with nothing behind its carriage return is left out where it has to be
/// ended.
pub proof fn enabling_changes_no_other_content(contents: Seq<u8>, executable: Seq<char>)
    requires
        !executable.contains('\n'),
        config::enable_plan(contents, executable) is Ok,
        ({
            let all = lines::split_lines(contents);
            let kinds = config::line_kinds(all, executable);
            let (scan, state) = config::analysis(all, executable)->Ok_0;
            state is Active || all.len() == 0 || is_own(kinds.last()) || !loses_return(
                all,
                kinds,
                scan,
                all.len() - 1,
            )
        }),
    ensures
        ({
            let plan = config::enable_plan(contents, executable)->Ok_0;
            let edited = lines::split_lines(plan.replacement);
            &&& other_contents(edited, executable) == other_contents(
                lines::split_lines(contents),
                executable,
            )
            &&& is_named_once(edited, executable)
        }),
{
    let all = lines::split_lines(contents);
    let kinds = config::line_kinds(all, executable);
    let (scan, state) = config::analysis(all, executable)->Ok_0;
    scan_succeeds_exactly_on_described_lines(kinds, scan);
    if state is Active {
        assert(kinds[scan.rusty->0] == LineKind::Installed);
    } else {
        let ending = config::newline(contents);
        lemma_enabled_lines(contents, executable);
        lemma_insertion_point(kinds, scan);
        let loose = config::enabled_lines(all, scan, executable, ending)->Ok_0;
        let after = enabled_scan(kinds, scan);
        lemma_edited_lines(loose, executable, after);
        lemma_kinds_of_tidied(loose, executable);
        enabling_keeps_other_lines(contents, executable);
        let edited = tidied(loose);
        let new_kinds = config::line_kinds(edited, executable);
        assert(new_kinds == config::line_kinds(loose, executable));
        assert(new_kinds[after.rusty->0] == LineKind::Installed);
        match scan.rusty {
            Some(rusty) => {
                lemma_agreement(contents, executable, edited);
                lemma_other_contents_agree(all, edited, executable);
            },
            None => {
                let point = config::insertion_point(kinds, scan)->Ok_0;
                let without = edited.remove(point);
                assert(new_kinds[point] == config::line_kind(edited[point].content, executable));
                lemma_other_contents_without(edited, point, executable);
                lemma_agreement(contents, executable, without);
                lemma_other_contents_agree(all, without, executable);
            },
        }
    }
}

/// The lines that an enabling edit leaves, but for the one it inserts, agree with the lines
/// before in all that are not own ones.
proof fn lemma_agreement(contents: Seq<u8>, executable: Seq<char>, compared: Seq<LineView>)
    requires
        !executable.contains('\n'),
        config::enable_plan(contents, executable) is Ok,
        config::enable_plan(contents, executable)->Ok_0.initial !is Active,
        ({
            let all = lines::split_lines(contents);
            let kinds = config::line_kinds(all, executable);
            let scan = config::analysis(all, executable)->Ok_0.0;
            let plan = config::enable_plan(contents, executable)->Ok_0;
            let edited = lines::split_lines(plan.replacement);
            &&& all.len() == 0 || is_own(kinds.last()) || !loses_return(
                all,
                kinds,
                scan,
                all.len() - 1,
            )
            &&& compared == (if scan.rusty is None {
                edited.remove(config::insertion_point(kinds, scan)->Ok_0)
            } else {
                edited
            })
        }),
    ensures
        ({
            let all = lines::split_lines(contents);
            &&& compared.len() == all.len()
            &&& forall|i: int|
                0 <= i < all.len() ==> is_own(
                    config::line_kind((#[trigger] all[i]).content, executable),
                ) == is_own(config::line_kind(compared[i].content, executable))
            &&& forall|i: int|
                0 <= i < all.len() && !is_own(
                    config::line_kind((#[trigger] all[i]).content, executable),
                ) ==> all[i].content == compared[i].content
        }),
{
    let all = lines::split_lines(contents);
    let kinds = config::line_kinds(all, executable);
    let (scan, state) = config::analysis(all, executable)->Ok_0;
    let ending = config::newline(contents);
    scan_succeeds_exactly_on_described_lines(kinds, scan);
    lemma_enabled_lines(contents, executable);
    lemma_insertion_point(kinds, scan);
    let loose = config::enabled_lines(all, scan, executable, ending)->Ok_0;
    let after = enabled_scan(kinds, scan);
    lemma_edited_lines(loose, executable, after);
    lemma_kinds_of_tidied(loose, executable);
    enabling_keeps_other_lines(contents, executable);
    lines::lemma_split_are_lines(contents);
    let edited = tidied(loose);
    let new_kinds = config::line_kinds(edited, executable);
    assert forall|i: int| 0 <= i < all.len() implies is_own(
        config::line_kind((#[trigger] all[i]).content, executable),
    ) == is_own(config::line_kind(compared[i].content, executable)) && (!is_own(
        config::line_kind(all[i].content, executable),
    ) ==> all[i].content == compared[i].content) by {
        let place = moved(kinds, scan, i);
        assert(kinds[i] == config::line_kind(all[i].content, executable));
        assert(compared[i] == edited[place]);
        assert(new_kinds[place] == config::line_kind(edited[place].content, executable));
        if scan.rusty != Some(i) && scan.foreign != Some(i) {
            if loses_return(all, kinds, scan, i) {
                assert(i == all.len() - 1) by {
                    if i < all.len() - 1 {
                        assert(lines::is_terminated(all[i]));
                    }
                }
                assert(kinds.last() == kinds[i]);
                assert(scan.preserved == Some(i));
                assert(after.preserved == Some(place));
            }
        } else if scan.foreign == Some(i) {
            assert(after.preserved == Some(place));
        }
    }
}

/// Disabling the program adds and removes no line, and keeps every line that is neither the one
/// of the program nor, where it is named again, the one of the preserved downloader.
pub proof fn disabling_keeps_other_lines(
    contents: Seq<u8>,
    executable: Seq<char>,
    choice: DisableChoice,
)
    requires
        config::disable_plan(contents, executable, choice) is Ok,
        config::disable_plan(contents, executable, choice)->Ok_0.initial is Active,
    ensures
        ({
            let plan = config::disable_plan(contents, executable, choice)->Ok_0;
            let all = lines::split_lines(contents);
            let scan = config::analysis(all, executable)->Ok_0.0;
            let edited = lines::split_lines(plan.replacement);
            &&& edited.len() == all.len()
            &&& forall|index: int|
                0 <= index < all.len() && scan.rusty != Some(index) && (scan.preserved != Some(
                    index,
                ) || choice == DisableChoice::Default) ==> edited[index] == #[trigger] all[index]
        }),
{
    let all = lines::split_lines(contents);
    let kinds = config::line_kinds(all, executable);
    let (scan, state) = config::analysis(all, executable)->Ok_0;
    lemma_disabled_lines(contents, executable, choice);
    scan_succeeds_exactly_on_described_lines(kinds, scan);
    lemma_split_loose(config::disabled_lines(all, scan, executable, choice));
}

/// A configuration preserves a downloader exactly if one of its lines starts, behind white
/// space, with the words that set a downloader aside.
pub proof fn a_preserved_downloader_is_a_marked_line(contents: Seq<u8>, executable: Seq<char>)
    requires
        config::preserves_downloader(contents, executable) is Ok,
    ensures
        ({
            let all = lines::split_lines(contents);
            config::preserves_downloader(contents, executable) == Ok::<bool, Problem>(
                exists|i: int|
                    0 <= i < all.len() && bytes::has_prefix(
                        bytes::trim((#[trigger] all[i]).content),
                        encode_utf8(PRESERVED_PREFIX@),
                    ),
            )
        }),
{
    let all = lines::split_lines(contents);
    let kinds = config::line_kinds(all, executable);
    let scan = config::analysis(all, executable)->Ok_0.0;
    scan_succeeds_exactly_on_described_lines(kinds, scan);
    assert forall|i: int| 0 <= i < all.len() implies (scan.preserved == Some(i)
        <==> bytes::has_prefix(
        bytes::trim((#[trigger] all[i]).content),
        encode_utf8(PRESERVED_PREFIX@),
    )) by {
        assert(kinds[i] == config::line_kind(all[i].content, executable));
    }
    if let Some(i) = scan.preserved {
        assert(bytes::has_prefix(bytes::trim(all[i].content), encode_utf8(PRESERVED_PREFIX@)));
    }
}

/// Disabling the program for the default downloader keeps a downloader that was set aside
/// available.
pub proof fn a_default_disable_keeps_the_preserved_downloader(
    contents: Seq<u8>,
    executable: Seq<char>,
)
    ensures
        config::disable_plan(contents, executable, DisableChoice::Default) matches Ok(plan)
            ==> config::preserves_downloader(plan.replacement, executable)
            == config::preserves_downloader(contents, executable),
{
    let choice = DisableChoice::Default;
    let all = lines::split_lines(contents);
    let kinds = config::line_kinds(all, executable);
    disabling_passes_staging(contents, executable, choice);
    lemma_disabled_lines(contents, executable, choice);
    if let Ok((scan, state)) = config::analysis(all, executable) {
        if state is Active {
            let edited = config::disabled_lines(all, scan, executable, choice);
            lemma_edited_lines(edited, executable, disabled_scan(scan, choice));
        }
    }
}

/// Disabling the program in favour of a downloader that was set aside leaves none set aside,
/// unless that one is the program itself.
pub proof fn a_restored_downloader_is_no_longer_preserved(
    contents: Seq<u8>,
    executable: Seq<char>,
)
    requires
        config::config_state(contents, executable) == Ok::<StateView, Problem>(StateView::Active),
        !preserves_itself(contents, executable),
    ensures
        config::disable_plan(contents, executable, DisableChoice::Existing) matches Ok(plan)
            ==> config::preserves_downloader(plan.replacement, executable) == Ok::<bool, Problem>(
            false,
        ),
{
    let choice = DisableChoice::Existing;
    let all = lines::split_lines(contents);
    let kinds = config::line_kinds(all, executable);
    disabling_passes_staging(contents, executable, choice);
    lemma_disabled_lines(contents, executable, choice);
    let scan = config::analysis(all, executable)->Ok_0.0;
    let edited = config::disabled_lines(all, scan, executable, choice);
    lemma_edited_lines(edited, executable, disabled_scan(scan, choice));
}

/// Enabling a program sets the downloader that was named aside, on its own line and as it
/// stands, and names the program, on the next line where no line names it yet. A downloader
/// whose line ends with a carriage return, and with nothing behind it, is left out where a line
/// has to be inserted, as above.
pub proof fn enabling_sets_the_downloader_aside(contents: Seq<u8>, executable: Seq<char>)
    requires
        !executable.contains('\n'),
        config::enable_plan(contents, executable) is Ok,
        config::enable_plan(contents, executable)->Ok_0.initial is Conflicting,
        ({
            let all = lines::split_lines(contents);
            let scan = config::analysis(all, executable)->Ok_0.0;
            scan.rusty is Some || !ends_with_return(all[scan.foreign->0])
        }),
    ensures
        ({
            let plan = config::enable_plan(contents, executable)->Ok_0;
            let all = lines::split_lines(contents);
            let scan = config::analysis(all, executable)->Ok_0.0;
            let edited = lines::split_lines(plan.replacement);
            let place = if scan.rusty is Some {
                scan.rusty->0
            } else {
                scan.foreign->0 + 1
            };
            &&& 0 <= scan.foreign->0 < edited.len()
            &&& 0 <= place < edited.len()
            &&& edited[scan.foreign->0].content == config::preserved_content(
                all[scan.foreign->0].content,
            )
            &&& bytes::trim(edited[place].content) == config::command_bytes(executable)
        }),
{
    let all = lines::split_lines(contents);
    let kinds = config::line_kinds(all, executable);
    let ending = config::newline(contents);
    let scan = config::analysis(all, executable)->Ok_0.0;
    lemma_enabled_lines(contents, executable);
    scan_succeeds_exactly_on_described_lines(kinds, scan);
    let edited = config::enabled_lines(all, scan, executable, ending)->Ok_0;
    lemma_edited_lines(edited, executable, enabled_scan(kinds, scan));
    let foreign = scan.foreign->0;
    let content = all[foreign].content;
    assert(kinds[foreign] == config::line_kind(content, executable));
    lemma_option_name();
    bytes::lemma_trim_start(content);
    bytes::lemma_trim_end(bytes::trim_start(content));
    assert(content.len() > 0);
    assert(config::preserved_content(content).last() == content.last());
    lines::lemma_split_are_lines(contents);
    lemma_lines_are_tidy(all);
    lemma_command_bytes(executable);
    lemma_enabled_kind(seq![], executable);
    assert(config::enabled_content(seq![], executable) =~= config::command_bytes(executable));
    if let Some(rusty) = scan.rusty {
        lemma_enabled_kind(all[rusty].content, executable);
        let enabled = config::enabled_content(all[rusty].content, executable);
        assert(enabled.last() == config::command_bytes(executable).last());
        assert(lines::tidy(edited[rusty]) == edited[rusty]);
    } else {
        assert(lines::tidy(edited[foreign + 1]) == edited[foreign + 1]);
    }
    lemma_line_with_same_end_is_tidy(all, foreign, config::preserved_content(content));
    assert(lines::tidy(edited[foreign]) == edited[foreign]);
}

/// A line of this kind stands among the lines.
pub open spec fn holds_kind(all: Seq<LineView>, executable: Seq<char>, kind: LineKind) -> bool {
    config::line_kinds(all, executable).contains(kind)
}

/// Two lines of this kind stand among the lines.
pub open spec fn holds_kind_twice(
    all: Seq<LineView>,
    executable: Seq<char>,
    kind: LineKind,
) -> bool {
    let kinds = config::line_kinds(all, executable);
    exists|i: int, j: int|
        0 <= i < j < kinds.len() && #[trigger] kinds[i] == kind && #[trigger] kinds[j] == kind
}

/// The line at `place` is in the options section, and the last one of it: a header of that
/// section stands before it, no other header stands between the two, and none but a header
/// follows it.
pub open spec fn ends_options(kinds: Seq<LineKind>, header: int, place: int) -> bool {
    &&& 0 <= header < place < kinds.len()
    &&& kinds[header] == LineKind::Options
    &&& forall|i: int|
        header < i < place ==> #[trigger] kinds[i] != LineKind::Section && kinds[i]
            != LineKind::Options
    &&& place + 1 == kinds.len() || kinds[place + 1] == LineKind::Section
}

/// Enabling a program in a configuration that names no downloader, not even in a comment,
/// inserts the line that names it at the end of the options section, before any other section,
/// with the line ending that the configuration uses.
pub proof fn enabling_inserts_in_the_options_section(contents: Seq<u8>, executable: Seq<char>)
    requires
        !executable.contains('\n'),
        config::enable_plan(contents, executable) is Ok,
        config::enable_plan(contents, executable)->Ok_0.initial is Absent,
    ensures
        ({
            let plan = config::enable_plan(contents, executable)->Ok_0;
            let edited = lines::split_lines(plan.replacement);
            let kinds = config::line_kinds(edited, executable);
            exists|header: int, place: int|
                {
                    &&& #[trigger] ends_options(kinds, header, place)
                    &&& kinds[place] == LineKind::Installed
                    &&& forall|i: int|
                        0 <= i < kinds.len() && i != place ==> !is_rusty(#[trigger] kinds[i])
                    &&& edited[place].content == config::command_bytes(executable)
                    &&& bytes::has_crlf(contents) ==> edited[place].ending == seq![13u8, 10u8]
                    &&& !bytes::has_crlf(contents) ==> edited[place].ending == seq![10u8]
                }
        }),
{
    let all = lines::split_lines(contents);
    let kinds = config::line_kinds(all, executable);
    let ending = config::newline(contents);
    let (scan, state) = config::analysis(all, executable)->Ok_0;
    scan_succeeds_exactly_on_described_lines(kinds, scan);
    lemma_enabled_lines(contents, executable);
    let loose = config::enabled_lines(all, scan, executable, ending)->Ok_0;
    let after = enabled_scan(kinds, scan);
    lemma_edited_lines(loose, executable, after);
    lemma_kinds_of_tidied(loose, executable);
    let edited = tidied(loose);
    let new_kinds = config::line_kinds(edited, executable);
    assert(new_kinds == config::line_kinds(loose, executable));
    lemma_options_header(kinds);
    let header = config::options_header(kinds)->Ok_0;
    lemma_section_end(kinds, header + 1);
    let place = config::insertion_point(kinds, scan)->Ok_0;
    assert forall|i: int| 0 <= i < new_kinds.len() && i != place implies #[trigger] new_kinds[i]
        == (if i < place {
        kinds[i]
    } else {
        kinds[i - 1]
    }) by {
        assert(loose[i].content == (if i < place {
            all[i]
        } else {
            all[i - 1]
        }).content);
    }
    assert(new_kinds[header] == LineKind::Options);
    lemma_command_bytes(executable);
    assert(lines::tidy(loose[place]) == loose[place]);
    assert(edited[place] == loose[place]);
    assert(ending =~= (if bytes::has_crlf(contents) {
        seq![13u8, 10u8]
    } else {
        seq![10u8]
    }));
    assert(ends_options(new_kinds, header, place));
    assert(describes(new_kinds, after));
    assert(new_kinds[place] == LineKind::Installed);
    assert forall|i: int| 0 <= i < new_kinds.len() && i != place implies !is_rusty(
        #[trigger] new_kinds[i],
    ) by {}
    assert(edited[place].content == config::command_bytes(executable));
    assert(edited[place].ending == ending);
    let plan = config::enable_plan(contents, executable)->Ok_0;
    assert(edited == lines::split_lines(plan.replacement));
}

/// A plan that enables a program is one for these bytes and this program, from the state that
/// they have to the one in which the program is named.
pub proof fn an_enabling_plan_is_for_its_configuration(contents: Seq<u8>, executable: Seq<char>)
    ensures
        config::enable_plan(contents, executable) matches Ok(plan) ==> {
            &&& plan.original == contents
            &&& plan.executable == executable
            &&& plan.expected is Active
            &&& config::config_state(contents, executable) == Ok::<StateView, Problem>(plan.initial)
        },
{
}

/// A program is refused exactly where the configuration is refused, where a downloader is named
/// while another is set aside, and where a line has to be inserted and there is no options
/// section or more than one.
pub proof fn enabling_is_refused_exactly_where_it_is_unclear(
    contents: Seq<u8>,
    executable: Seq<char>,
)
    ensures
        ({
            let all = lines::split_lines(contents);
            let planned = config::enable_plan(contents, executable);
            match config::config_state(contents, executable) {
                Err(problem) => planned matches Err(found) && found == problem,
                Ok(StateView::Active) | Ok(StateView::Disabled) => planned is Ok,
                Ok(StateView::Conflicting { .. }) => if config::preserves_downloader(
                    contents,
                    executable,
                ) == Ok::<bool, Problem>(true) {
                    planned matches Err(found) && found == Problem::ActiveAndPreserved
                } else {
                    planned is Ok
                },
                Ok(StateView::Absent) => if !holds_kind(all, executable, LineKind::Options) {
                    planned matches Err(found) && found == Problem::NoOptionsSection
                } else if holds_kind_twice(all, executable, LineKind::Options) {
                    planned matches Err(found) && found == Problem::MultipleOptionsSections
                } else {
                    planned is Ok
                },
            }
        }),
{
    let all = lines::split_lines(contents);
    let kinds = config::line_kinds(all, executable);
    lemma_options_header(kinds);
    if let Ok((scan, state)) = config::analysis(all, executable) {
        scan_succeeds_exactly_on_described_lines(kinds, scan);
    }
    if kinds.contains(LineKind::Options) {
        let i = kinds.index_of(LineKind::Options);
        assert(kinds[i] == LineKind::Options);
    } else {
        assert forall|i: int| 0 <= i < kinds.len() implies #[trigger] kinds[i]
            != LineKind::Options by {
            assert(kinds.contains(kinds[i]));
        }
    }
    lemma_several_options(kinds);
    if let Ok(header) = config::options_header(kinds) {
        assert(kinds[header] == LineKind::Options);
        assert(kinds.contains(kinds[header]));
    }
    assert(holds_kind(all, executable, LineKind::Options) <==> config::options_header(kinds)
        != Err::<int, Problem>(Problem::NoOptionsSection));
    assert(holds_kind_twice(all, executable, LineKind::Options) <==> config::options_header(kinds)
        == Err::<int, Problem>(Problem::MultipleOptionsSections));
}

/// Where the header is refused though there is one, there are two.
proof fn lemma_several_options(kinds: Seq<LineKind>)
    ensures
        config::options_header(kinds) == Err::<int, Problem>(Problem::MultipleOptionsSections)
            <==> exists|i: int, j: int|
            0 <= i < j < kinds.len() && #[trigger] kinds[i] == LineKind::Options
                && #[trigger] kinds[j] == LineKind::Options,
    decreases kinds.len(),
{
    lemma_options_header(kinds);
    if kinds.len() > 0 {
        let shorter = kinds.drop_last();
        lemma_several_options(shorter);
        lemma_options_header(shorter);
        assert forall|i: int| 0 <= i < shorter.len() implies #[trigger] kinds[i]
            == shorter[i] by {}
        if config::options_header(kinds) == Err::<int, Problem>(
            Problem::MultipleOptionsSections,
        ) {
            if let Ok(header) = config::options_header(shorter) {
                assert(kinds[header] == LineKind::Options && kinds[kinds.len() - 1]
                    == LineKind::Options);
            } else {
                let (i, j) = choose|i: int, j: int|
                    0 <= i < j < shorter.len() && #[trigger] shorter[i] == LineKind::Options
                        && #[trigger] shorter[j] == LineKind::Options;
                assert(kinds[i] == LineKind::Options && kinds[j] == LineKind::Options);
            }
        }
    }
}

/// A commented line that names the program is uncommented in its place, with its indentation and
/// its ending.
pub proof fn enabling_uncomments_in_place(contents: Seq<u8>, executable: Seq<char>, index: int)
    requires
        !executable.contains('\n'),
        config::enable_plan(contents, executable) is Ok,
        0 <= index < lines::split_lines(contents).len(),
        config::line_kind(lines::split_lines(contents)[index].content, executable)
            == LineKind::Commented,
    ensures
        ({
            let plan = config::enable_plan(contents, executable)->Ok_0;
            let all = lines::split_lines(contents);
            let edited = lines::split_lines(plan.replacement);
            &&& edited.len() == all.len()
            &&& edited[index].content == bytes::indentation(all[index].content)
                + config::command_bytes(executable)
            &&& edited[index].ending == all[index].ending
        }),
{
    let all = lines::split_lines(contents);
    let kinds = config::line_kinds(all, executable);
    let ending = config::newline(contents);
    let (scan, state) = config::analysis(all, executable)->Ok_0;
    scan_succeeds_exactly_on_described_lines(kinds, scan);
    assert(kinds[index] == LineKind::Commented);
    lemma_enabled_lines(contents, executable);
    let loose = config::enabled_lines(all, scan, executable, ending)->Ok_0;
    lemma_edited_lines(loose, executable, enabled_scan(kinds, scan));
    lemma_command_bytes(executable);
    assert(loose[index].content.last() == config::command_bytes(executable).last());
    assert(lines::tidy(loose[index]) == loose[index]);
}

/// Disabling the program comments its line out in its place, with its indentation and its
/// ending, and with nothing between the hash sign and the command.
pub proof fn disabling_comments_in_place(
    contents: Seq<u8>,
    executable: Seq<char>,
    choice: DisableChoice,
    index: int,
)
    requires
        config::disable_plan(contents, executable, choice) is Ok,
        config::disable_plan(contents, executable, choice)->Ok_0.initial is Active,
        0 <= index < lines::split_lines(contents).len(),
        config::line_kind(lines::split_lines(contents)[index].content, executable)
            == LineKind::Installed,
    ensures
        ({
            let plan = config::disable_plan(contents, executable, choice)->Ok_0;
            let all = lines::split_lines(contents);
            let edited = lines::split_lines(plan.replacement);
            &&& edited.len() == all.len()
            &&& edited[index].content == bytes::indentation(all[index].content) + seq![35u8]
                + config::command_bytes(executable)
            &&& edited[index].ending == all[index].ending
        }),
{
    let all = lines::split_lines(contents);
    let kinds = config::line_kinds(all, executable);
    let (scan, state) = config::analysis(all, executable)->Ok_0;
    scan_succeeds_exactly_on_described_lines(kinds, scan);
    assert(kinds[index] == LineKind::Installed);
    lemma_disabled_lines(contents, executable, choice);
    let loose = config::disabled_lines(all, scan, executable, choice);
    lemma_split_loose(loose);
    lemma_command_bytes(executable);
    assert(loose[index].content.last() == config::command_bytes(executable).last());
    assert(lines::tidy(loose[index]) == loose[index]);
}

/// Disabling the program in favour of a downloader that was set aside names that one again in
/// its place, as it stood when it was set aside.
pub proof fn disabling_names_the_preserved_downloader_again(
    contents: Seq<u8>,
    executable: Seq<char>,
    index: int,
    payload: Seq<u8>,
)
    requires
        config::disable_plan(contents, executable, DisableChoice::Existing) is Ok,
        config::disable_plan(contents, executable, DisableChoice::Existing)->Ok_0.initial is Active,
        0 <= index < lines::split_lines(contents).len(),
        ({
            let content = lines::split_lines(contents)[index].content;
            content == bytes::indentation(content) + encode_utf8(
                "## Pre-RustyPac XferCommand ## "@,
            ) + payload
        }),
        config::line_kind(lines::split_lines(contents)[index].content, executable) is Preserved,
    ensures
        ({
            let plan = config::disable_plan(contents, executable, DisableChoice::Existing)->Ok_0;
            let all = lines::split_lines(contents);
            let edited = lines::split_lines(plan.replacement);
            &&& edited.len() == all.len()
            &&& edited[index].content == payload
            &&& edited[index].ending == all[index].ending
            &&& plan.expected == (StateView::Conflicting { line: decode_utf8(payload) })
        }),
{
    let choice = DisableChoice::Existing;
    let all = lines::split_lines(contents);
    let kinds = config::line_kinds(all, executable);
    let (scan, state) = config::analysis(all, executable)->Ok_0;
    scan_succeeds_exactly_on_described_lines(kinds, scan);
    assert(kinds[index] is Preserved);
    let content = all[index].content;
    bytes::lemma_trim_start(content);
    let prefix = encode_utf8("## Pre-RustyPac XferCommand ## "@);
    assert(bytes::trim_start(content) =~= prefix + payload);
    assert(config::payload(content) =~= payload);
    lemma_disabled_lines(contents, executable, choice);
    let loose = config::disabled_lines(all, scan, executable, choice);
    lemma_split_loose(loose);
    lemma_payload_is_a_suffix(content, executable);
    lines::lemma_split_are_lines(contents);
    lemma_lines_are_tidy(all);
    assert(loose[index].content == payload);
    lemma_line_with_same_end_is_tidy(all, index, payload);
}

/// A plan that disables the program is one for these bytes and this program, from the state
/// that they have. Where the program is not named, it changes nothing. It is refused exactly
/// where the configuration is, and where a downloader is to be named again that is no text.
pub proof fn disabling_is_refused_only_for_what_is_no_text(
    contents: Seq<u8>,
    executable: Seq<char>,
    choice: DisableChoice,
)
    ensures
        ({
            let planned = config::disable_plan(contents, executable, choice);
            match config::config_state(contents, executable) {
                Err(problem) => planned matches Err(found) && found == problem,
                Ok(state) => {
                    &&& planned matches Ok(plan) ==> {
                        &&& plan.original == contents
                        &&& plan.executable == executable
                        &&& plan.initial == state
                        &&& state !is Active ==> plan.replacement == contents && plan.expected
                            == state
                        &&& state is Active && (choice == DisableChoice::Default
                            || config::preserves_downloader(contents, executable) == Ok::<
                            bool,
                            Problem,
                        >(false)) ==> plan.expected is Disabled
                    }
                    &&& planned matches Err(problem) ==> problem == Problem::PreservedNotUtf8
                        && state is Active && choice == DisableChoice::Existing
                        && config::preserves_downloader(contents, executable) == Ok::<
                        bool,
                        Problem,
                    >(true)
                },
            }
        }),
{
}

/// A downloader that was set aside can be named again exactly if its line is text.
pub proof fn a_preserved_text_can_be_named_again(
    contents: Seq<u8>,
    executable: Seq<char>,
    index: int,
    payload: Seq<u8>,
)
    requires
        config::config_state(contents, executable) == Ok::<StateView, Problem>(StateView::Active),
        0 <= index < lines::split_lines(contents).len(),
        ({
            let content = lines::split_lines(contents)[index].content;
            content == bytes::indentation(content) + encode_utf8(
                "## Pre-RustyPac XferCommand ## "@,
            ) + payload
        }),
        config::line_kind(lines::split_lines(contents)[index].content, executable) is Preserved,
    ensures
        config::disable_plan(contents, executable, DisableChoice::Existing) is Ok <==> valid_utf8(
            payload,
        ),
{
    let all = lines::split_lines(contents);
    let kinds = config::line_kinds(all, executable);
    let (scan, state) = config::analysis(all, executable)->Ok_0;
    scan_succeeds_exactly_on_described_lines(kinds, scan);
    assert(kinds[index] is Preserved);
    let content = all[index].content;
    bytes::lemma_trim_start(content);
    assert(bytes::trim_start(content) =~= encode_utf8("## Pre-RustyPac XferCommand ## "@)
        + payload);
    assert(config::payload(content) =~= payload);
}

} // verus!

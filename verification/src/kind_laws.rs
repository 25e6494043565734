//! What holds of every line of a configuration, and of the state that the lines make up.

use vstd::prelude::*;
use vstd::string::*;
use vstd::utf8::*;

use crate::bytes;
use crate::config;
use crate::config::{LineKind, Problem, ScanView, StateView};
use crate::config_laws;
use crate::lines;
use crate::lines::LineView;
use crate::utf8;

verus! {

/// All bytes are white space.
pub open spec fn is_blank(text: Seq<u8>) -> bool {
    forall|i: int| 0 <= i < text.len() ==> bytes::is_space(#[trigger] text[i])
}

/// The bytes of the name of the option that names the downloader.
pub open spec fn option_name() -> Seq<u8> {
    encode_utf8("XferCommand"@)
}

/// The bytes that stand before a downloader that was set aside.
pub open spec fn aside_mark() -> Seq<u8> {
    encode_utf8("## Pre-RustyPac XferCommand ## "@)
}

/// The text sets the option that names the downloader to `value`.
pub open spec fn sets_to(text: Seq<u8>, gap: Seq<u8>, value: Seq<u8>) -> bool {
    is_blank(gap) && text == option_name() + gap + seq![61u8] + value
}

/// The text names a downloader: it sets the option to something.
pub open spec fn names_downloader(text: Seq<u8>) -> bool {
    exists|gap: Seq<u8>, value: Seq<u8>| #[trigger] sets_to(text, gap, value) && !is_blank(value)
}

/// The text sets the option to nothing.
pub open spec fn names_nothing(text: Seq<u8>) -> bool {
    exists|gap: Seq<u8>, value: Seq<u8>| #[trigger] sets_to(text, gap, value) && is_blank(value)
}

/// The text is the option alone, or the option with white space and then no equals sign.
pub open spec fn lacks_equals(text: Seq<u8>) -> bool {
    let rest = text.skip(option_name().len() as int);
    &&& bytes::has_prefix(text, option_name())
    &&& rest.len() == 0 || bytes::is_space(rest[0])
    &&& bytes::trim_start(rest).len() == 0 || bytes::trim_start(rest)[0] != 61
}

/// Blank text is trimmed to nothing, and only that.
proof fn lemma_blank(text: Seq<u8>)
    ensures
        is_blank(text) <==> bytes::trim(text).len() == 0,
{
    bytes::lemma_trim_start(text);
    let start = bytes::trim_start(text);
    bytes::lemma_trim_end(start);
    let cut = text.len() - start.len();
    if bytes::trim(text).len() == 0 {
        assert forall|i: int| 0 <= i < text.len() implies bytes::is_space(#[trigger] text[i]) by {
            if i >= cut {
                assert(start[i - cut] == text[i]);
            }
        }
    } else if is_blank(text) {
        assert(bytes::trim(text)[0] == start[0]);
        assert(text[cut] == start[0]);
    }
}

/// Trimming the start removes blank text before a visible byte, and all of it before none.
proof fn lemma_trim_start_behind_blank(gap: Seq<u8>, rest: Seq<u8>)
    requires
        is_blank(gap),
    ensures
        bytes::trim_start(gap + rest) == bytes::trim_start(rest),
    decreases gap.len(),
{
    if gap.len() == 0 {
        assert(gap + rest =~= rest);
    } else {
        let fewer = gap.drop_first();
        assert(is_blank(fewer)) by {
            assert forall|i: int| 0 <= i < fewer.len() implies bytes::is_space(
                #[trigger] fewer[i],
            ) by {
                assert(fewer[i] == gap[i + 1]);
            }
        }
        lemma_trim_start_behind_blank(fewer, rest);
        assert((gap + rest).drop_first() =~= fewer + rest);
        assert(bytes::is_space(gap[0]));
    }
}

/// What is wrong with a setting, told by its text.
pub proof fn settings_are_told_by_their_text(text: Seq<u8>)
    ensures
        config::command_problem(text) is None <==> names_downloader(text),
        config::command_problem(text) == Some(Problem::MissingCommand) <==> names_nothing(text),
        config::command_problem(text) == Some(Problem::MissingEquals) <==> lacks_equals(text),
        config::command_problem(text) == Some(Problem::MalformedCommand) <==> !names_downloader(
            text,
        ) && !names_nothing(text) && !lacks_equals(text),
        config::names_option(text) <==> names_downloader(text) || names_nothing(text)
            || lacks_equals(text),
{
    let name = option_name();
    let rest = text.skip(name.len() as int);
    let start = bytes::trim_start(rest);
    let gap = rest.take(rest.len() - start.len());
    bytes::lemma_trim_start(rest);
    lemma_option_name();
    if config::names_option(text) && start.len() > 0 && start[0] == 61 {
        let value = start.skip(1);
        assert(is_blank(gap)) by {
            assert forall|i: int| 0 <= i < gap.len() implies bytes::is_space(#[trigger] gap[i]) by {
                assert(gap[i] == rest[i]);
            }
        }
        assert(text =~= name + gap + seq![61u8] + value);
        assert(sets_to(text, gap, value));
        lemma_blank(value);
    }
    assert forall|other: Seq<u8>, value: Seq<u8>| #[trigger]
        sets_to(text, other, value) implies config::names_option(text) && start == seq![61u8]
        + value by {
        lemma_setting(text, other, value);
    }
    assert forall|other: Seq<u8>, value: Seq<u8>| #[trigger] sets_to(text, other, value) implies (
    is_blank(value) <==> bytes::trim(start.skip(1)).len() == 0) by {
        lemma_setting(text, other, value);
        assert(start.skip(1) =~= value);
        lemma_blank(value);
    }
    if config::names_option(text) {
        assert(rest.len() > 0 ==> rest[0] == text[name.len() as int]);
        assert(lacks_equals(text) <==> (start.len() == 0 || start[0] != 61)) by {
            if rest.len() > 0 && !bytes::is_space(rest[0]) {
                assert(rest[0] == 61);
                assert(start == rest);
            }
        }
    }
    if lacks_equals(text) {
        assert(rest.len() > 0 ==> rest[0] == text[name.len() as int]);
        assert(config::names_option(text));
    }
}

/// A setting starts with the option, and its value stands behind the equals sign.
proof fn lemma_setting(text: Seq<u8>, gap: Seq<u8>, value: Seq<u8>)
    requires
        sets_to(text, gap, value),
    ensures
        config::names_option(text),
        bytes::trim_start(text.skip(option_name().len() as int)) == seq![61u8] + value,
{
    let name = option_name();
    lemma_option_name();
    assert(text.take(name.len() as int) =~= name);
    let rest = text.skip(name.len() as int);
    let tail = seq![61u8] + value;
    assert(rest =~= gap + tail);
    lemma_trim_start_behind_blank(gap, tail);
    assert(tail[0] == 61);
    if gap.len() > 0 {
        assert(text[name.len() as int] == gap[0]);
        assert(bytes::is_space(gap[0]));
    } else {
        assert(text[name.len() as int] == 61);
    }
}

/// The name of the option as the configuration has it.
proof fn lemma_option_name()
    ensures
        option_name() == encode_utf8(config::XFER_COMMAND@),
        option_name().len() == 11,
        option_name()[0] == 88,
        aside_mark() == encode_utf8(config::PRESERVED_PREFIX@),
        aside_mark().len() > 0,
        aside_mark()[0] == 35,
{
    reveal_strlit("XferCommand");
    reveal_strlit("## Pre-RustyPac XferCommand ## ");
    is_ascii_chars_encode_utf8("XferCommand"@);
    is_ascii_chars_encode_utf8("## Pre-RustyPac XferCommand ## "@);
}

/// The line that names a program is the option, set to the program and the two places that
/// pacman fills in.
pub proof fn the_command_names_the_program(executable: Seq<char>)
    ensures
        config::command_bytes(executable) == encode_utf8("XferCommand = "@) + encode_utf8(
            executable,
        ) + encode_utf8(" %u %o"@),
        names_downloader(config::command_bytes(executable)),
{
    utf8::lemma_encode_concat("XferCommand = "@, executable);
    utf8::lemma_encode_concat("XferCommand = "@ + executable, " %u %o"@);
    config_laws::lemma_command_bytes(executable);
    settings_are_told_by_their_text(config::command_bytes(executable));
}

/// What a line is to an edit, told by its text without the white space around it: a line that is
/// neither a comment, nor a downloader that was set aside, nor a setting of the option, nor the
/// header of a section is nothing to it.
pub proof fn kinds_are_told_by_the_text(content: Seq<u8>, executable: Seq<char>)
    ensures
        ({
            let kind = config::line_kind(content, executable);
            let text = bytes::trim(content);
            let aside = bytes::has_prefix(text, aside_mark());
            let comment = text.len() > 0 && text[0] == 35 && !aside;
            &&& kind is Preserved <==> aside
            &&& kind == LineKind::Installed <==> text == config::command_bytes(executable)
            &&& kind == LineKind::Foreign <==> names_downloader(text) && text
                != config::command_bytes(executable)
            &&& kind == LineKind::BadCommand(Problem::MissingCommand) <==> names_nothing(text)
            &&& kind == LineKind::BadCommand(Problem::MissingEquals) <==> lacks_equals(text)
            &&& kind matches LineKind::BadCommand(problem) ==> problem == Problem::MissingCommand
                || problem == Problem::MissingEquals
            &&& kind == LineKind::Options <==> text == encode_utf8("[options]"@)
            &&& kind == LineKind::Section <==> text.len() > 0 && text[0] == 91 && text.last() == 93
                && text != encode_utf8("[options]"@)
            &&& kind == LineKind::Commented || kind == LineKind::MalformedComment ==> comment
        }),
{
    let text = bytes::trim(content);
    lemma_option_name();
    reveal_strlit("[options]");
    is_ascii_chars_encode_utf8("[options]"@);
    settings_are_told_by_their_text(text);
    the_command_names_the_program(executable);
    config_laws::lemma_command_bytes(executable);
    let command = config::command_bytes(executable);
    if bytes::has_prefix(text, aside_mark()) {
        assert(text.take(aside_mark().len() as int)[0] == text[0]);
    }
    if config::names_option(text) {
        assert(text.take(11)[0] == text[0]);
    }
    assert(encode_utf8("[options]"@)[0] == 91);
}

/// A downloader that was set aside is well set aside exactly if a downloader is named behind the
/// words that set it aside.
pub proof fn what_was_set_aside_is_a_downloader(
    content: Seq<u8>,
    executable: Seq<char>,
    payload: Seq<u8>,
)
    requires
        bytes::trim_start(content) == aside_mark() + payload,
        !is_blank(payload),
    ensures
        config::line_kind(content, executable) == LineKind::Preserved(None) <==> names_downloader(
            bytes::trim(payload),
        ),
        config::line_kind(content, executable) is Preserved,
{
    lemma_option_name();
    let mark = aside_mark();
    let start = bytes::trim_start(content);
    let text = bytes::trim(content);
    settings_are_told_by_their_text(bytes::trim(payload));
    assert(config::payload(content) =~= payload);
    bytes::lemma_trim_end(start);
    assert(text.len() > mark.len()) by {
        if text.len() <= mark.len() {
            assert forall|i: int| 0 <= i < payload.len() implies bytes::is_space(
                #[trigger] payload[i],
            ) by {
                assert(payload[i] == start[mark.len() + i]);
            }
        }
    }
    assert(text.take(mark.len() as int) =~= mark);
}

/// A part of a part is a part of the whole.
proof fn lemma_part_of_part(text: Seq<u8>, from: int, to: int, part: Seq<u8>)
    requires
        0 <= from <= to <= text.len(),
        bytes::has_part(text.subrange(from, to), part),
    ensures
        bytes::has_part(text, part),
{
    let inner = text.subrange(from, to);
    let position = choose|position: int| bytes::occurs_at(inner, part, position);
    assert(bytes::occurs_at(inner, part, position));
    assert(text.subrange(from + position, from + position + part.len()) =~= inner.subrange(
        position,
        position + part.len(),
    ));
    assert(bytes::occurs_at(text, part, from + position));
}

/// A comment that does not name the program is nothing to an edit, whatever else it holds, the
/// option of another downloader among that. Nor is one that does not start with the option.
pub proof fn a_comment_about_something_else_is_unrelated(content: Seq<u8>, executable: Seq<char>)
    requires
        bytes::trim(content).len() > 0,
        bytes::trim(content)[0] == 35,
        !bytes::has_prefix(bytes::trim(content), aside_mark()),
        !bytes::has_part(content, encode_utf8(executable)) || !bytes::has_prefix(
            bytes::trim_start(bytes::trim(content).skip(1)),
            option_name(),
        ),
    ensures
        config::line_kind(content, executable) == LineKind::Unrelated,
{
    let text = bytes::trim(content);
    let comment = bytes::trim_start(text.skip(1));
    let command = config::command_bytes(executable);
    let name = encode_utf8(executable);
    lemma_option_name();
    the_command_names_the_program(executable);
    bytes::lemma_trim_start(content);
    let start = bytes::trim_start(content);
    bytes::lemma_trim_end(start);
    bytes::lemma_trim_start(text.skip(1));
    let to = content.len() - start.len() + text.len();
    let from = to - comment.len();
    assert(content.subrange(from, to) =~= comment);
    let head = encode_utf8("XferCommand = "@);
    assert(bytes::occurs_at(command, name, head.len() as int)) by {
        assert(command.subrange(head.len() as int, (head.len() + name.len()) as int) =~= name);
    }
    if bytes::has_part(comment, name) {
        lemma_part_of_part(content, from, to, name);
    }
    config_laws::lemma_command_bytes(executable);
    if comment == command {
        assert(bytes::has_part(comment, name));
    }
}

/// A comment whose text is the line that names the program names it in a comment; one that
/// starts with the option and holds the program, but is another text, is malformed.
pub proof fn a_comment_about_the_program_is_told_by_its_text(
    content: Seq<u8>,
    executable: Seq<char>,
)
    requires
        bytes::trim(content).len() > 0,
        bytes::trim(content)[0] == 35,
        !bytes::has_prefix(bytes::trim(content), aside_mark()),
    ensures
        ({
            let comment = bytes::trim_start(bytes::trim(content).skip(1));
            let kind = config::line_kind(content, executable);
            &&& kind == LineKind::Commented <==> comment == config::command_bytes(executable)
            &&& comment != config::command_bytes(executable) && bytes::has_prefix(
                comment,
                option_name(),
            ) && bytes::has_part(comment, encode_utf8(executable)) ==> kind
                == LineKind::MalformedComment
        }),
{
    lemma_option_name();
}

/// White space before a line does not change what the line is.
pub proof fn indentation_does_not_change_the_kind(
    space: u8,
    content: Seq<u8>,
    executable: Seq<char>,
)
    requires
        bytes::is_space(space),
    ensures
        config::line_kind(seq![space] + content, executable) == config::line_kind(
            content,
            executable,
        ),
{
    let gap = seq![space];
    assert(is_blank(gap));
    lemma_trim_start_behind_blank(gap, content);
}

/// A line of this kind does not count for the state.
pub open spec fn is_neutral(kind: LineKind) -> bool {
    kind == LineKind::Unrelated || kind == LineKind::Options || kind == LineKind::Section
}

/// The scan once a line that does not count stands before the one at `point`.
spec fn moved_scan(scan: ScanView, point: int) -> ScanView {
    ScanView {
        rusty: config_laws::shifted(scan.rusty, point),
        disabled: scan.disabled,
        foreign: config_laws::shifted(scan.foreign, point),
        preserved: config_laws::shifted(scan.preserved, point),
    }
}

/// A line that does not count moves what a scan finds, and changes nothing else.
proof fn lemma_scan_with_neutral(before: Seq<LineKind>, kind: LineKind, behind: Seq<LineKind>)
    requires
        is_neutral(kind),
    ensures
        match config::scan_kinds(before + behind) {
            Ok(scan) => config::scan_kinds(before + seq![kind] + behind) == Ok::<
                ScanView,
                Problem,
            >(moved_scan(scan, before.len() as int)),
            Err(problem) => config::scan_kinds(before + seq![kind] + behind) == Err::<
                ScanView,
                Problem,
            >(problem),
        },
    decreases behind.len(),
{
    let all = before + behind;
    let more = before + seq![kind] + behind;
    if behind.len() == 0 {
        assert(all =~= before);
        assert(more.drop_last() =~= before);
        assert(more.last() == kind);
        if let Ok(scan) = config::scan_kinds(before) {
            config_laws::scan_succeeds_exactly_on_described_lines(before, scan);
        }
    } else {
        let fewer = behind.drop_last();
        lemma_scan_with_neutral(before, kind, fewer);
        assert(all.drop_last() =~= before + fewer);
        assert(more.drop_last() =~= before + seq![kind] + fewer);
        assert(all.last() == behind.last() && more.last() == behind.last());
    }
}

/// The lines of two texts, the first of which ends with a line feed or is empty, are the lines
/// of both together.
pub proof fn lines_are_split_at_any_feed(left: Seq<u8>, right: Seq<u8>)
    requires
        left.len() == 0 || left.last() == 10,
    ensures
        lines::split_lines(left + right) == lines::split_lines(left) + lines::split_lines(right),
{
    let first = lines::split_lines(left);
    let second = lines::split_lines(right);
    lines::lemma_split_are_lines(left);
    lines::lemma_split_are_lines(right);
    lines::lemma_join_split(left);
    lines::lemma_join_split(right);
    lines::lemma_join_concat(first, second);
    let all = first + second;
    if first.len() > 0 {
        let last = first.last();
        if lines::is_rest(last) {
            let before = first.drop_last();
            assert(first =~= before + seq![last]);
            lines::lemma_join_concat(before, seq![last]);
            assert(seq![last].drop_first() =~= seq![]);
            assert(lines::join_lines(seq![last].drop_first()) =~= seq![]);
            assert(lines::join_lines(seq![last]) =~= last.content);
            assert(left.last() == last.content.last());
            assert(last.content.contains(last.content.last()));
        }
        assert(lines::is_terminated(last));
    }
    assert forall|i: int| 0 <= i < all.len() - 1 implies lines::is_terminated(
        #[trigger] all[i],
    ) by {
        if i < first.len() - 1 {
            assert(all[i] == first[i]);
        } else if i == first.len() - 1 {
            assert(all[i] == first.last());
        } else {
            assert(all[i] == second[i - first.len()]);
        }
    }
    if second.len() > 0 {
        assert(all.last() == second.last());
    } else if first.len() > 0 {
        assert(all.last() == first.last());
    }
    lines::lemma_split_join(all);
}

/// A line that neither names a downloader nor holds one, in a comment or not, does not count:
/// the state, or the problem, of a configuration is the same with it and without it.
pub proof fn other_lines_do_not_change_the_state(
    left: Seq<u8>,
    content: Seq<u8>,
    right: Seq<u8>,
    executable: Seq<char>,
)
    requires
        left.len() == 0 || left.last() == 10,
        !content.contains(10u8),
        is_neutral(config::line_kind(content, executable)),
    ensures
        config::config_state(left + (content + seq![10u8] + right), executable)
            == config::config_state(left + right, executable),
        config::preserves_downloader(left + (content + seq![10u8] + right), executable)
            == config::preserves_downloader(left + right, executable),
{
    let feed = content + seq![10u8];
    lines_are_split_at_any_feed(left, right);
    lines_are_split_at_any_feed(feed, right);
    lines_are_split_at_any_feed(left, feed + right);
    let line = LineView { content, ending: seq![10u8] };
    let tidy = lines::tidy(line);
    let one = seq![tidy];
    assert(lines::line_feed() =~= seq![10u8]);
    if tidy.content.contains(10u8) {
        let at = tidy.content.index_of(10u8);
        assert(content[at] == 10);
    }
    assert(lines::are_lines(one));
    assert(one.drop_first() =~= seq![]);
    assert(lines::join_lines(one.drop_first()) =~= seq![]);
    assert(lines::join_lines(one) =~= feed);
    lines::lemma_split_join(one);
    if tidy != line {
        config_laws::trailing_space_does_not_change_the_kind(content, executable);
    }
    let kind = config::line_kind(tidy.content, executable);
    let first = lines::split_lines(left);
    let second = lines::split_lines(right);
    let fewer = first + second;
    let more = first + (one + second);
    let before = config::line_kinds(first, executable);
    let behind = config::line_kinds(second, executable);
    assert(config::line_kinds(fewer, executable) =~= before + behind);
    assert(config::line_kinds(more, executable) =~= before + seq![kind] + behind);
    lemma_scan_with_neutral(before, kind, behind);
    if let Ok(scan) = config::scan_kinds(before + behind) {
        config_laws::scan_succeeds_exactly_on_described_lines(before + behind, scan);
        if let Some(index) = scan.foreign {
            let place = config_laws::shifted(scan.foreign, first.len() as int)->0;
            assert(more[place] == fewer[index]);
        }
    }
}

/// No two of the lines name this program, or another, or hold one that was set aside, and none
/// is bad.
pub open spec fn is_sound(kinds: Seq<LineKind>) -> bool {
    &&& forall|i: int| 0 <= i < kinds.len() ==> !config_laws::is_bad(#[trigger] kinds[i])
    &&& forall|i: int, j: int|
        0 <= i < j < kinds.len() && config_laws::is_rusty(#[trigger] kinds[i])
            ==> !config_laws::is_rusty(#[trigger] kinds[j])
    &&& forall|i: int, j: int|
        0 <= i < j < kinds.len() && #[trigger] kinds[i] == LineKind::Foreign
            ==> #[trigger] kinds[j] != LineKind::Foreign
    &&& forall|i: int, j: int|
        0 <= i < j < kinds.len() && #[trigger] kinds[i] is Preserved ==> !(
        #[trigger] kinds[j] is Preserved)
}

/// A scan succeeds exactly on sound lines.
proof fn lemma_scan_is_sound(kinds: Seq<LineKind>)
    ensures
        config::scan_kinds(kinds) is Ok <==> is_sound(kinds),
{
    if let Ok(scan) = config::scan_kinds(kinds) {
        config_laws::scan_succeeds_exactly_on_described_lines(kinds, scan);
    }
    if is_sound(kinds) {
        let rusty = if exists|i: int|
            0 <= i < kinds.len() && config_laws::is_rusty(#[trigger] kinds[i]) {
            Some(
                choose|i: int| 0 <= i < kinds.len() && config_laws::is_rusty(#[trigger] kinds[i]),
            )
        } else {
            None
        };
        let foreign = if exists|i: int|
            0 <= i < kinds.len() && #[trigger] kinds[i] == LineKind::Foreign {
            Some(choose|i: int| 0 <= i < kinds.len() && #[trigger] kinds[i] == LineKind::Foreign)
        } else {
            None
        };
        let preserved = if exists|i: int|
            0 <= i < kinds.len() && #[trigger] kinds[i] is Preserved {
            Some(choose|i: int| 0 <= i < kinds.len() && #[trigger] kinds[i] is Preserved)
        } else {
            None
        };
        let disabled = rusty is Some && kinds[rusty->0] == LineKind::Commented;
        let scan = ScanView { rusty, disabled, foreign, preserved };
        assert forall|i: int| 0 <= i < kinds.len() implies (config_laws::is_rusty(
            #[trigger] kinds[i],
        ) <==> rusty == Some(i)) && (kinds[i] == LineKind::Foreign <==> foreign == Some(i)) && (
        kinds[i] is Preserved <==> preserved == Some(i)) by {}
        assert(config_laws::describes(kinds, scan));
        config_laws::scan_succeeds_exactly_on_described_lines(kinds, scan);
    }
}

/// The state of a configuration, told by its lines. Of those that name a downloader or hold one
/// there is at most one of each sort, and none is malformed. The program is active if a line
/// names it and none names another; it is disabled if only a comment names it, and none names
/// another; and it is absent if nothing names it or another. Another downloader that is named
/// conflicts with it, and its line is text.
pub proof fn the_state_is_told_by_the_lines(contents: Seq<u8>, executable: Seq<char>)
    ensures
        ({
            let all = lines::split_lines(contents);
            let kinds = config::line_kinds(all, executable);
            let found = config::config_state(contents, executable);
            let installed = kinds.contains(LineKind::Installed);
            let commented = kinds.contains(LineKind::Commented);
            let foreign = kinds.contains(LineKind::Foreign);
            &&& found == Ok::<StateView, Problem>(StateView::Active) <==> is_sound(kinds)
                && installed && !foreign
            &&& found == Ok::<StateView, Problem>(StateView::Disabled) <==> is_sound(kinds)
                && commented && !foreign
            &&& found == Ok::<StateView, Problem>(StateView::Absent) <==> is_sound(kinds)
                && !installed && !commented && !foreign
            &&& (found matches Ok(state) && state is Conflicting) ==> foreign && !installed
            &&& forall|i: int|
                0 <= i < all.len() && #[trigger] kinds[i] == LineKind::Foreign && is_sound(kinds)
                    && !installed ==> found == (if valid_utf8(all[i].content) {
                    Ok::<StateView, Problem>(
                        StateView::Conflicting { line: decode_utf8(all[i].content) },
                    )
                } else {
                    Err(Problem::ActiveNotUtf8)
                })
            &&& found == Err::<StateView, Problem>(Problem::BothActive) <==> is_sound(kinds)
                && installed && foreign
            &&& found is Ok ==> is_sound(kinds)
        }),
{
    let all = lines::split_lines(contents);
    let kinds = config::line_kinds(all, executable);
    lemma_scan_is_sound(kinds);
    lemma_problems_of_lines(all, executable);
    lemma_scan_problem(kinds);
    if let Ok(scan) = config::scan_kinds(kinds) {
        config_laws::scan_succeeds_exactly_on_described_lines(kinds, scan);
        if kinds.contains(LineKind::Installed) {
            let i = kinds.index_of(LineKind::Installed);
            assert(config_laws::is_rusty(kinds[i]));
        }
        if kinds.contains(LineKind::Commented) {
            let i = kinds.index_of(LineKind::Commented);
            assert(config_laws::is_rusty(kinds[i]));
        }
        if kinds.contains(LineKind::Foreign) {
            let i = kinds.index_of(LineKind::Foreign);
            assert(kinds[i] == LineKind::Foreign);
        }
        if let Some(i) = scan.rusty {
            assert(kinds.contains(kinds[i]));
            assert(config_laws::is_rusty(kinds[i]));
        }
        if let Some(i) = scan.foreign {
            assert(kinds.contains(kinds[i]));
        }
    }
}

/// The lines hold what the problem says.
pub open spec fn is_evidence(kinds: Seq<LineKind>, problem: Problem) -> bool {
    match problem {
        Problem::MultiplePreserved => exists|i: int, j: int|
            0 <= i < j < kinds.len() && #[trigger] kinds[i] is Preserved
                && #[trigger] kinds[j] is Preserved,
        Problem::MultipleRusty => exists|i: int, j: int|
            0 <= i < j < kinds.len() && config_laws::is_rusty(#[trigger] kinds[i])
                && config_laws::is_rusty(#[trigger] kinds[j]),
        Problem::MultipleActive => exists|i: int, j: int|
            0 <= i < j < kinds.len() && #[trigger] kinds[i] == LineKind::Foreign
                && #[trigger] kinds[j] == LineKind::Foreign,
        Problem::MalformedComment => kinds.contains(LineKind::MalformedComment),
        Problem::MissingEquals | Problem::MissingCommand => kinds.contains(
            LineKind::BadCommand(problem),
        ) || kinds.contains(LineKind::Preserved(Some(problem))),
        Problem::MalformedCommand => kinds.contains(LineKind::Preserved(Some(problem))),
        _ => false,
    }
}

/// The problems of single lines are those of settings.
spec fn are_of_lines(kinds: Seq<LineKind>) -> bool {
    forall|i: int|
        0 <= i < kinds.len() ==> match #[trigger] kinds[i] {
            LineKind::BadCommand(problem) => problem == Problem::MissingEquals || problem
                == Problem::MissingCommand,
            LineKind::Preserved(Some(problem)) => problem == Problem::MissingEquals || problem
                == Problem::MissingCommand || problem == Problem::MalformedCommand,
            _ => true,
        }
}

/// The problems of the lines of a text are those of settings.
proof fn lemma_problems_of_lines(all: Seq<LineView>, executable: Seq<char>)
    ensures
        are_of_lines(config::line_kinds(all, executable)),
{
    let kinds = config::line_kinds(all, executable);
    assert forall|i: int| 0 <= i < kinds.len() implies match #[trigger] kinds[i] {
        LineKind::BadCommand(problem) => problem == Problem::MissingEquals || problem
            == Problem::MissingCommand,
        LineKind::Preserved(Some(problem)) => problem == Problem::MissingEquals || problem
            == Problem::MissingCommand || problem == Problem::MalformedCommand,
        _ => true,
    } by {
        assert(kinds[i] == config::line_kind(all[i].content, executable));
    }
}

/// A scan fails with a problem that the lines hold.
proof fn lemma_scan_problem(kinds: Seq<LineKind>)
    requires
        are_of_lines(kinds),
    ensures
        config::scan_kinds(kinds) matches Err(problem) ==> is_evidence(kinds, problem),
    decreases kinds.len(),
{
    if kinds.len() > 0 {
        let shorter = kinds.drop_last();
        let last = kinds.len() - 1;
        assert forall|i: int| 0 <= i < shorter.len() implies #[trigger] shorter[i]
            == kinds[i] by {}
        lemma_scan_problem(shorter);
        assert(kinds[last] == kinds.last());
        assert(kinds.contains(kinds[last]));
        match config::scan_kinds(shorter) {
            Err(problem) => {
                assert forall|kind: LineKind| shorter.contains(kind) implies kinds.contains(
                    kind,
                ) by {
                    let i = shorter.index_of(kind);
                    assert(kinds[i] == kind);
                }
                lemma_evidence_stays(kinds, problem);
            },
            Ok(scan) => {
                config_laws::scan_succeeds_exactly_on_described_lines(shorter, scan);
                if let Some(i) = scan.rusty {
                    assert(kinds[i] == shorter[i]);
                    assert(config_laws::is_rusty(kinds[i]));
                }
                if let Some(i) = scan.foreign {
                    assert(kinds[i] == shorter[i]);
                    assert(kinds[i] == LineKind::Foreign);
                }
                if let Some(i) = scan.preserved {
                    assert(kinds[i] == shorter[i]);
                    assert(kinds[i] is Preserved);
                }
            },
        }
    }
}

/// What the first lines hold, all of them hold.
proof fn lemma_evidence_stays(kinds: Seq<LineKind>, problem: Problem)
    requires
        kinds.len() > 0,
        is_evidence(kinds.drop_last(), problem),
    ensures
        is_evidence(kinds, problem),
{
    let shorter = kinds.drop_last();
    assert forall|i: int| 0 <= i < shorter.len() implies #[trigger] kinds[i] == shorter[i] by {}
    assert forall|kind: LineKind| shorter.contains(kind) implies kinds.contains(kind) by {
        let i = shorter.index_of(kind);
        assert(kinds[i] == kind);
    }
    match problem {
        Problem::MultiplePreserved => {
            let (i, j) = choose|i: int, j: int|
                0 <= i < j < shorter.len() && #[trigger] shorter[i] is Preserved
                    && #[trigger] shorter[j] is Preserved;
            assert(kinds[i] is Preserved && kinds[j] is Preserved);
        },
        Problem::MultipleRusty => {
            let (i, j) = choose|i: int, j: int|
                0 <= i < j < shorter.len() && config_laws::is_rusty(#[trigger] shorter[i])
                    && config_laws::is_rusty(#[trigger] shorter[j]);
            assert(config_laws::is_rusty(kinds[i]) && config_laws::is_rusty(kinds[j]));
        },
        Problem::MultipleActive => {
            let (i, j) = choose|i: int, j: int|
                0 <= i < j < shorter.len() && #[trigger] shorter[i] == LineKind::Foreign
                    && #[trigger] shorter[j] == LineKind::Foreign;
            assert(kinds[i] == LineKind::Foreign && kinds[j] == LineKind::Foreign);
        },
        _ => {},
    }
}

/// A configuration is refused for a reason that its lines give: two lines of a sort of which
/// there may be one, a malformed line, two active downloaders, or one whose line is no text.
pub proof fn a_refused_configuration_holds_its_problem(contents: Seq<u8>, executable: Seq<char>)
    ensures
        ({
            let kinds = config::line_kinds(lines::split_lines(contents), executable);
            config::config_state(contents, executable) matches Err(problem) ==> {
                ||| problem == Problem::BothActive && is_sound(kinds)
                ||| problem == Problem::ActiveNotUtf8 && is_sound(kinds)
                ||| !is_sound(kinds) && is_evidence(kinds, problem)
            }
        }),
{
    let kinds = config::line_kinds(lines::split_lines(contents), executable);
    lemma_scan_is_sound(kinds);
    lemma_problems_of_lines(lines::split_lines(contents), executable);
    lemma_scan_problem(kinds);
}

/// A configuration that is refused for its first lines is refused for the same reason with
/// whatever follows them.
pub proof fn the_first_problem_is_reported(left: Seq<u8>, right: Seq<u8>, executable: Seq<char>)
    requires
        left.len() == 0 || left.last() == 10,
        !is_sound(config::line_kinds(lines::split_lines(left), executable)),
    ensures
        config::config_state(left + right, executable) == config::config_state(left, executable),
{
    lines_are_split_at_any_feed(left, right);
    let first = config::line_kinds(lines::split_lines(left), executable);
    let second = config::line_kinds(lines::split_lines(right), executable);
    let all = config::line_kinds(lines::split_lines(left + right), executable);
    assert(all =~= first + second);
    lemma_scan_is_sound(first);
    assert(all.take(first.len() as int) =~= first);
    config::lemma_scan_error(all, first.len() as int);
}

} // verus!

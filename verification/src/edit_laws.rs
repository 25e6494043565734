//! What an edit changes of the bytes of a configuration, and what it leaves.

use vstd::prelude::*;
use vstd::string::*;
use vstd::utf8::*;

use crate::bytes;
use crate::config;
use crate::config::{DisableChoice, LineKind, Problem};
use crate::config_laws;
use crate::lines;
use crate::lines::LineView;
use crate::text_laws;

verus! {

/// The line ending that a configuration uses.
pub open spec fn usual_ending(contents: Seq<u8>) -> Seq<u8> {
    if bytes::has_part(contents, seq![13u8, 10u8]) {
        seq![13u8, 10u8]
    } else {
        seq![10u8]
    }
}

/// The bytes end with a line feed, or there are none.
pub open spec fn is_at_line_start(before: Seq<u8>) -> bool {
    before.len() == 0 || before.last() == 10
}

/// The line ending is the one that the plan uses.
proof fn lemma_usual_ending(contents: Seq<u8>)
    ensures
        config::newline(contents) == usual_ending(contents),
{
    text_laws::a_dos_file_holds_a_dos_ending(contents);
    assert(lines::line_feed() =~= seq![10u8]);
    assert(lines::carriage_return_line_feed() =~= seq![13u8, 10u8]);
}

/// Joining lines around the one at `index`.
proof fn lemma_join_around(all: Seq<LineView>, index: int)
    requires
        0 <= index < all.len(),
    ensures
        lines::join_lines(all) == lines::join_lines(all.take(index)) + (all[index].content
            + all[index].ending + lines::join_lines(all.skip(index + 1))),
{
    let before = all.take(index);
    let rest = all.skip(index);
    assert(all =~= before + rest);
    lines::lemma_join_concat(before, rest);
    assert(rest.drop_first() =~= all.skip(index + 1));
}

/// What stands before a line of a text is at the start of a line.
proof fn lemma_before_a_line(contents: Seq<u8>, index: int)
    requires
        0 <= index <= lines::split_lines(contents).len(),
        index == lines::split_lines(contents).len() ==> index == 0
            || lines::split_lines(contents)[index - 1].ending.len() > 0,
    ensures
        is_at_line_start(lines::join_lines(lines::split_lines(contents).take(index))),
{
    let all = lines::split_lines(contents);
    lines::lemma_split_are_lines(contents);
    if index > 0 {
        let before = all.take(index);
        let line = all[index - 1];
        lemma_join_around(before, index - 1);
        assert(before.skip(index) =~= seq![]);
        assert(lines::join_lines(before.skip(index)) =~= seq![]);
        if index - 1 < all.len() - 1 {
            assert(lines::is_terminated(all[index - 1]));
        } else {
            assert(all[index - 1] == all.last());
        }
        assert(line.ending.last() == 10);
        assert(lines::join_lines(before).last() == line.ending.last());
    }
}

/// The edit at `place` puts `new` in place of `old`, and leaves all bytes before and behind it.
pub open spec fn replaces(
    contents: Seq<u8>,
    replacement: Seq<u8>,
    before: Seq<u8>,
    old: Seq<u8>,
    new: Seq<u8>,
    behind: Seq<u8>,
) -> bool {
    &&& contents == before + (old + behind)
    &&& replacement == before + (new + behind)
}

/// The line that is inserted behind `before`, which is ended first where it has to be.
pub open spec fn inserted_line(
    contents: Seq<u8>,
    executable: Seq<char>,
    before: Seq<u8>,
) -> Seq<u8> {
    let line = config::command_bytes(executable) + usual_ending(contents);
    if is_at_line_start(before) {
        line
    } else {
        usual_ending(contents) + line
    }
}

/// Enabling the program where nothing names a downloader inserts one line, at the start of a
/// line, and leaves all bytes before and behind it. Where the last line of the file has to be
/// ended for that, it is.
pub proof fn enabling_inserts_one_line(contents: Seq<u8>, executable: Seq<char>)
    requires
        config::enable_plan(contents, executable) is Ok,
        config::enable_plan(contents, executable)->Ok_0.initial is Absent,
    ensures
        exists|before: Seq<u8>, behind: Seq<u8>|
            (is_at_line_start(before) || behind.len() == 0) && #[trigger] replaces(
                contents,
                config::enable_plan(contents, executable)->Ok_0.replacement,
                before,
                seq![],
                inserted_line(contents, executable, before),
                behind,
            ),
{
    let all = lines::split_lines(contents);
    let kinds = config::line_kinds(all, executable);
    let ending = config::newline(contents);
    let (scan, state) = config::analysis(all, executable)->Ok_0;
    let command = config::command_bytes(executable);
    let replacement = config::enable_plan(contents, executable)->Ok_0.replacement;
    lemma_usual_ending(contents);
    config_laws::scan_succeeds_exactly_on_described_lines(kinds, scan);
    config_laws::lemma_insertion_point(kinds, scan);
    let point = config::insertion_point(kinds, scan)->Ok_0;
    lines::lemma_join_split(contents);
    lines::lemma_split_are_lines(contents);
    let before = lines::join_lines(all.take(point));
    let behind = lines::join_lines(all.skip(point));
    assert(all =~= all.take(point) + all.skip(point));
    lines::lemma_join_concat(all.take(point), all.skip(point));
    let inserted = LineView { content: command, ending };
    let edited = config::with_line(all, point, command, ending);
    lemma_join_around(edited, point);
    assert(edited[point] == inserted);
    assert(edited.skip(point + 1) =~= all.skip(point));
    if point > 0 && all[point - 1].ending.len() == 0 {
        if point - 1 < all.len() - 1 {
            assert(lines::is_terminated(all[point - 1]));
        }
        assert(all[point - 1] == all.last());
        assert(all.skip(point) =~= seq![]);
        assert(behind =~= seq![]);
        let ended = edited.take(point);
        lemma_join_around(all.take(point), point - 1);
        lemma_join_around(ended, point - 1);
        assert(all.take(point).take(point - 1) =~= ended.take(point - 1));
        assert(all.take(point).skip(point) =~= seq![]);
        assert(ended.skip(point) =~= seq![]);
        assert(lines::join_lines(Seq::<LineView>::empty()) =~= seq![]);
        assert(lines::join_lines(ended) =~= before + ending);
        let content = all[point - 1].content;
        assert(before.last() == content.last());
        assert(content.contains(content[content.len() - 1]));
        assert(!is_at_line_start(before));
        assert(replacement =~= before + ((ending + (command + ending)) + behind));
        assert(contents =~= before + (seq![] + behind));
        assert(inserted_line(contents, executable, before) =~= ending + (command + ending));
        assert(replaces(
            contents,
            config::enable_plan(contents, executable)->Ok_0.replacement,
            before,
            seq![],
            inserted_line(contents, executable, before),
            behind,
        ));
    } else {
        lemma_before_a_line(contents, point);
        assert(edited.take(point) =~= all.take(point));
        assert(replacement =~= before + ((command + ending) + behind));
        assert(contents =~= before + (seq![] + behind));
        assert(inserted_line(contents, executable, before) =~= command + ending);
        assert(replaces(
            contents,
            config::enable_plan(contents, executable)->Ok_0.replacement,
            before,
            seq![],
            inserted_line(contents, executable, before),
            behind,
        ));
    }
}

/// Enabling the program where only a comment names it, and no other downloader is named, puts
/// the command in place of that comment, with its indentation, and leaves all other bytes.
pub proof fn enabling_uncomments_one_line(contents: Seq<u8>, executable: Seq<char>)
    requires
        config::enable_plan(contents, executable) is Ok,
        config::enable_plan(contents, executable)->Ok_0.initial is Disabled,
    ensures
        exists|before: Seq<u8>, old: Seq<u8>, behind: Seq<u8>|
            {
                &&& #[trigger] replaces(
                    contents,
                    config::enable_plan(contents, executable)->Ok_0.replacement,
                    before,
                    old,
                    bytes::indentation(old) + config::command_bytes(executable),
                    behind,
                )
                &&& is_at_line_start(before)
                &&& config::line_kind(old, executable) == LineKind::Commented
            },
{
    let all = lines::split_lines(contents);
    let kinds = config::line_kinds(all, executable);
    let (scan, state) = config::analysis(all, executable)->Ok_0;
    config_laws::scan_succeeds_exactly_on_described_lines(kinds, scan);
    let index = scan.rusty->0;
    let old = all[index].content;
    assert(kinds[index] == config::line_kind(old, executable));
    assert(config_laws::is_rusty(kinds[index]));
    let new = bytes::indentation(old) + config::command_bytes(executable);
    let edited = config::with_content(all, index, new);
    lemma_replaced_line(contents, index, new);
    let (before, behind) = choose|before: Seq<u8>, behind: Seq<u8>|
        is_at_line_start(before) && #[trigger] replaces(
            contents,
            lines::join_lines(edited),
            before,
            old,
            new,
            behind,
        );
    assert(config::enable_plan(contents, executable)->Ok_0.replacement == lines::join_lines(
        edited,
    ));
    assert(replaces(
        contents,
        config::enable_plan(contents, executable)->Ok_0.replacement,
        before,
        old,
        bytes::indentation(old) + config::command_bytes(executable),
        behind,
    ));
}

/// Putting other content in a line leaves all other bytes.
proof fn lemma_replaced_line(contents: Seq<u8>, index: int, new: Seq<u8>)
    requires
        0 <= index < lines::split_lines(contents).len(),
    ensures
        ({
            let all = lines::split_lines(contents);
            exists|before: Seq<u8>, behind: Seq<u8>|
                is_at_line_start(before) && #[trigger] replaces(
                    contents,
                    lines::join_lines(config::with_content(all, index, new)),
                    before,
                    all[index].content,
                    new,
                    behind,
                )
        }),
{
    let all = lines::split_lines(contents);
    let edited = config::with_content(all, index, new);
    lines::lemma_join_split(contents);
    lemma_before_a_line(contents, index);
    lemma_join_around(all, index);
    lemma_join_around(edited, index);
    let before = lines::join_lines(all.take(index));
    let behind = all[index].ending + lines::join_lines(all.skip(index + 1));
    assert(edited.take(index) =~= all.take(index));
    assert(edited.skip(index + 1) =~= all.skip(index + 1));
    assert(contents =~= before + (all[index].content + behind));
    assert(lines::join_lines(edited) =~= before + (new + behind));
    assert(replaces(
        contents,
        lines::join_lines(edited),
        before,
        all[index].content,
        new,
        behind,
    ));
}

/// Disabling the program for the default downloader puts a comment in place of the command, with
/// its indentation, and leaves all other bytes.
pub proof fn disabling_comments_one_line_out(contents: Seq<u8>, executable: Seq<char>)
    requires
        config::disable_plan(contents, executable, DisableChoice::Default) is Ok,
        config::disable_plan(contents, executable, DisableChoice::Default)->Ok_0.initial is Active,
    ensures
        exists|before: Seq<u8>, old: Seq<u8>, behind: Seq<u8>|
            {
                &&& #[trigger] replaces(
                    contents,
                    config::disable_plan(
                        contents,
                        executable,
                        DisableChoice::Default,
                    )->Ok_0.replacement,
                    before,
                    old,
                    bytes::indentation(old) + seq![35u8] + config::command_bytes(executable),
                    behind,
                )
                &&& is_at_line_start(before)
                &&& config::line_kind(old, executable) == LineKind::Installed
            },
{
    let all = lines::split_lines(contents);
    let kinds = config::line_kinds(all, executable);
    let (scan, state) = config::analysis(all, executable)->Ok_0;
    config_laws::scan_succeeds_exactly_on_described_lines(kinds, scan);
    let index = scan.rusty->0;
    let old = all[index].content;
    assert(kinds[index] == config::line_kind(old, executable));
    assert(config_laws::is_rusty(kinds[index]));
    let new = bytes::indentation(old) + seq![35u8] + config::command_bytes(executable);
    let edited = config::with_content(all, index, new);
    lemma_replaced_line(contents, index, new);
    let (before, behind) = choose|before: Seq<u8>, behind: Seq<u8>|
        is_at_line_start(before) && #[trigger] replaces(
            contents,
            lines::join_lines(edited),
            before,
            old,
            new,
            behind,
        );
    let choice = DisableChoice::Default;
    assert(config::disable_plan(contents, executable, choice)->Ok_0.replacement
        == lines::join_lines(edited));
    assert(replaces(
        contents,
        config::disable_plan(contents, executable, choice)->Ok_0.replacement,
        before,
        old,
        bytes::indentation(old) + seq![35u8] + config::command_bytes(executable),
        behind,
    ));
}

/// The line of a downloader with the words that set it aside before it, its ending or the usual
/// one behind it, and the command on the next line.
pub open spec fn set_aside(
    contents: Seq<u8>,
    executable: Seq<char>,
    old: Seq<u8>,
    end: Seq<u8>,
) -> Seq<u8> {
    let ending = usual_ending(contents);
    encode_utf8("## Pre-RustyPac XferCommand ## "@) + old + (if end.len() > 0 {
        end
    } else {
        ending
    }) + config::command_bytes(executable) + ending
}

/// Enabling the program where another downloader is named, and nothing names the program, sets
/// that line aside with the words for it before it, puts the command on the next line, and
/// leaves all other bytes. Where the line had no ending, it gets one.
pub proof fn enabling_sets_one_line_aside(contents: Seq<u8>, executable: Seq<char>)
    requires
        config::enable_plan(contents, executable) is Ok,
        config::enable_plan(contents, executable)->Ok_0.initial is Conflicting,
        !config::line_kinds(lines::split_lines(contents), executable).contains(
            LineKind::Commented,
        ),
    ensures
        exists|before: Seq<u8>, old: Seq<u8>, end: Seq<u8>, behind: Seq<u8>|
            {
                &&& #[trigger] replaces(
                    contents,
                    config::enable_plan(contents, executable)->Ok_0.replacement,
                    before,
                    old + end,
                    set_aside(contents, executable, old, end),
                    behind,
                )
                &&& is_at_line_start(before)
                &&& config::line_kind(old, executable) == LineKind::Foreign
                &&& end == seq![10u8] || end == seq![13u8, 10u8] || end.len() == 0 && behind.len()
                    == 0
            },
{
    let all = lines::split_lines(contents);
    let kinds = config::line_kinds(all, executable);
    let ending = config::newline(contents);
    let (scan, state) = config::analysis(all, executable)->Ok_0;
    let command = config::command_bytes(executable);
    let replacement = config::enable_plan(contents, executable)->Ok_0.replacement;
    lemma_usual_ending(contents);
    config_laws::scan_succeeds_exactly_on_described_lines(kinds, scan);
    if let Some(rusty) = scan.rusty {
        assert(config_laws::is_rusty(kinds[rusty]));
        assert(kinds.contains(kinds[rusty]));
    }
    let index = scan.foreign->0;
    let old = all[index].content;
    let end = all[index].ending;
    assert(kinds[index] == config::line_kind(old, executable));
    let kept = config::with_content(all, index, config::preserved_content(old));
    let edited = config::with_line(kept, index + 1, command, ending);
    assert(replacement == lines::join_lines(edited));
    lemma_set_aside(contents, executable, index);
    let (before, behind) = choose|before: Seq<u8>, behind: Seq<u8>|
        is_at_line_start(before) && (end == seq![10u8] || end == seq![13u8, 10u8] || end.len() == 0
            && behind.len() == 0) && #[trigger] replaces(
            contents,
            lines::join_lines(edited),
            before,
            old + end,
            set_aside(contents, executable, old, end),
            behind,
        );
    assert(replaces(
        contents,
        config::enable_plan(contents, executable)->Ok_0.replacement,
        before,
        old + end,
        set_aside(contents, executable, old, end),
        behind,
    ));
}

/// Bytes are the same however they are put together.
proof fn lemma_assembled(
    before: Seq<u8>,
    aside: Seq<u8>,
    command: Seq<u8>,
    ending: Seq<u8>,
    behind: Seq<u8>,
)
    ensures
        (before + aside) + (command + ending + behind) == before + ((aside + command + ending)
            + behind),
{
    assert((before + aside) + (command + ending + behind) =~= before + ((aside + command + ending)
        + behind));
}

/// Setting a line aside and inserting the command behind it leaves all other bytes.
proof fn lemma_set_aside(contents: Seq<u8>, executable: Seq<char>, index: int)
    requires
        0 <= index < lines::split_lines(contents).len(),
    ensures
        ({
            let all = lines::split_lines(contents);
            let old = all[index].content;
            let end = all[index].ending;
            let edited = config::with_line(
                config::with_content(all, index, config::preserved_content(old)),
                index + 1,
                config::command_bytes(executable),
                config::newline(contents),
            );
            exists|before: Seq<u8>, behind: Seq<u8>|
                is_at_line_start(before) && (end == seq![10u8] || end == seq![13u8, 10u8]
                    || end.len() == 0 && behind.len() == 0) && #[trigger] replaces(
                    contents,
                    lines::join_lines(edited),
                    before,
                    old + end,
                    set_aside(contents, executable, old, end),
                    behind,
                )
        }),
{
    let all = lines::split_lines(contents);
    let ending = config::newline(contents);
    let command = config::command_bytes(executable);
    let mark = encode_utf8("## Pre-RustyPac XferCommand ## "@);
    let old = all[index].content;
    let end = all[index].ending;
    lemma_usual_ending(contents);
    lines::lemma_join_split(contents);
    lines::lemma_split_are_lines(contents);
    lemma_before_a_line(contents, index);
    let before = lines::join_lines(all.take(index));
    let behind = lines::join_lines(all.skip(index + 1));
    lemma_join_around(all, index);
    let kept = config::with_content(all, index, config::preserved_content(old));
    let edited = config::with_line(kept, index + 1, command, ending);
    let start = edited.take(index + 1);
    let kept_end = if end.len() > 0 {
        end
    } else {
        ending
    };
    assert(edited[index + 1] == (LineView { content: command, ending }));
    assert(edited[index].content == mark + old);
    assert(edited[index].ending == kept_end);
    assert(edited.skip(index + 2) =~= all.skip(index + 1));
    assert(start.take(index) =~= all.take(index));
    assert(start.skip(index + 1) =~= seq![]);
    assert(lines::join_lines(Seq::<LineView>::empty()) =~= seq![]);
    lemma_join_around(edited, index + 1);
    lemma_join_around(start, index);
    assert(lines::join_lines(start) =~= before + (mark + old + kept_end));
    let new = set_aside(contents, executable, old, end);
    lemma_assembled(before, mark + old + kept_end, command, ending, behind);
    assert(contents =~= before + ((old + end) + behind));
    if index < all.len() - 1 {
        assert(lines::is_terminated(all[index]));
    } else {
        assert(all[index] == all.last());
        assert(all.skip(index + 1) =~= seq![]);
    }
    assert(lines::line_feed() =~= seq![10u8]);
    assert(lines::carriage_return_line_feed() =~= seq![13u8, 10u8]);
    assert(replaces(contents, lines::join_lines(edited), before, old + end, new, behind));
}

/// Whether a downloader was set aside can be told exactly where the state can.
pub proof fn what_was_set_aside_is_told_with_the_state(contents: Seq<u8>, executable: Seq<char>)
    ensures
        match config::config_state(contents, executable) {
            Ok(_) => config::preserves_downloader(contents, executable) is Ok,
            Err(problem) => config::preserves_downloader(contents, executable) == Err::<
                bool,
                Problem,
            >(problem),
        },
{
}

/// No two problems are reported in the same words.
pub proof fn problems_are_reported_apart(first: Problem, second: Problem)
    ensures
        config::problem_text(first) == config::problem_text(second) <==> first == second,
{
    reveal_strlit("multiple preserved XferCommand lines");
    reveal_strlit("multiple RustyPac XferCommand lines");
    reveal_strlit("multiple active XferCommand lines");
    reveal_strlit("RustyPac and another XferCommand are both active");
    reveal_strlit("both an active downloader and a preserved downloader are present");
    reveal_strlit("malformed preserved XferCommand");
    reveal_strlit("XferCommand is missing '='");
    reveal_strlit("XferCommand has no command");
    reveal_strlit("malformed commented RustyPac XferCommand");
    reveal_strlit("active XferCommand is not valid UTF-8");
    reveal_strlit("preserved XferCommand is not valid UTF-8");
    reveal_strlit("no [options] section for the XferCommand");
    reveal_strlit("multiple [options] sections");
    reveal_strlit("staged configuration did not match the planned bytes");
    reveal_strlit("staged configuration did not have the planned state");
    reveal_strlit("the edit lock does not belong to RustyPac");
    reveal_strlit("the configuration is not a regular file");
    reveal_strlit("the configuration has more than one hard link");
    reveal_strlit("could not allocate a temporary configuration file");
    let left = config::problem_text(first);
    let right = config::problem_text(second);
    if first != second {
        assert(left.len() != right.len() || left[0] != right[0] || left[12] != right[12]);
    }
}

} // verus!

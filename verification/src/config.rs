//! Planned edits of `pacman.conf`: which downloader it names, and how to change that.

use vstd::prelude::*;
use vstd::slice::slice_to_vec;
use vstd::string::*;
use vstd::utf8::*;

use crate::bytes;
use crate::bytes::{
    contains, contains_crlf, equal, is_ascii_space, leading_indentation, starts_with, trim_ascii,
    trim_ascii_start, CLOSE_BRACKET, EQUALS, HASH, OPEN_BRACKET,
};
use crate::lines;
use crate::lines::{join, lines, Line, LineView};
use crate::utf8::decode;

verus! {

/// Where the program is installed.
pub const INSTALLED_EXECUTABLE: &'static str = "/usr/local/bin/RustyPac";

/// What stands before a downloader that was set aside.
pub const PRESERVED_PREFIX: &'static str = "## Pre-RustyPac XferCommand ## ";

/// The option that names the downloader.
pub const XFER_COMMAND: &'static str = "XferCommand";

/// The header of the section that holds the option.
pub const OPTIONS_HEADER: &'static str = "[options]";

/// Which downloader a configuration names.
#[derive(Debug, Clone, Eq, PartialEq)]
pub enum ConfigState {
    /// This program.
    Active,
    /// None; a line that would name this program is commented out.
    Disabled,
    /// None, and no line names this program.
    Absent,
    /// Another program, named by `line`.
    Conflicting { line: String },
}

/// The model of [`ConfigState`].
pub ghost enum StateView {
    Active,
    Disabled,
    Absent,
    Conflicting { line: Seq<char> },
}

impl View for ConfigState {
    type V = StateView;

    open spec fn view(&self) -> StateView {
        match self {
            ConfigState::Active => StateView::Active,
            ConfigState::Disabled => StateView::Disabled,
            ConfigState::Absent => StateView::Absent,
            ConfigState::Conflicting { line } => StateView::Conflicting { line: line@ },
        }
    }
}

impl ConfigState {
    /// An equal state.
    fn duplicate(&self) -> (copy: ConfigState)
        ensures
            copy@ == self@,
    {
        match self {
            ConfigState::Active => ConfigState::Active,
            ConfigState::Disabled => ConfigState::Disabled,
            ConfigState::Absent => ConfigState::Absent,
            ConfigState::Conflicting { line } => ConfigState::Conflicting { line: line.clone() },
        }
    }

    /// The two states are equal.
    fn same(&self, other: &ConfigState) -> (same: bool)
        ensures
            same == (self@ == other@),
    {
        match (self, other) {
            (ConfigState::Active, ConfigState::Active) => true,
            (ConfigState::Disabled, ConfigState::Disabled) => true,
            (ConfigState::Absent, ConfigState::Absent) => true,
            (
                ConfigState::Conflicting { line: left },
                ConfigState::Conflicting { line: right },
            ) => *left == *right,
            _ => false,
        }
    }
}

/// What becomes of a downloader that was set aside when this program is disabled.
#[derive(Debug, Clone, Copy, Eq, PartialEq, Structural)]
pub enum DisableChoice {
    /// It is named again.
    Existing,
    /// It stays set aside, and pacman uses its own downloader.
    Default,
}

/// Why a configuration or an edit of it is refused.
#[derive(Debug, Clone, Copy, Eq, PartialEq, Structural)]
pub enum Problem {
    MultiplePreserved,
    MultipleRusty,
    MultipleActive,
    BothActive,
    ActiveAndPreserved,
    MalformedCommand,
    MissingEquals,
    MissingCommand,
    MalformedComment,
    ActiveNotUtf8,
    PreservedNotUtf8,
    NoOptionsSection,
    MultipleOptionsSections,
    StagedBytes,
    StagedState,
    ForeignEditLock,
    NotRegular,
    HardLinked,
    NoStagingName,
}

/// The words in which a problem is reported.
pub open spec fn problem_text(problem: Problem) -> Seq<char> {
    match problem {
        Problem::MultiplePreserved => "multiple preserved XferCommand lines"@,
        Problem::MultipleRusty => "multiple RustyPac XferCommand lines"@,
        Problem::MultipleActive => "multiple active XferCommand lines"@,
        Problem::BothActive => "RustyPac and another XferCommand are both active"@,
        Problem::ActiveAndPreserved =>
            "both an active downloader and a preserved downloader are present"@,
        Problem::MalformedCommand => "malformed preserved XferCommand"@,
        Problem::MissingEquals => "XferCommand is missing '='"@,
        Problem::MissingCommand => "XferCommand has no command"@,
        Problem::MalformedComment => "malformed commented RustyPac XferCommand"@,
        Problem::ActiveNotUtf8 => "active XferCommand is not valid UTF-8"@,
        Problem::PreservedNotUtf8 => "preserved XferCommand is not valid UTF-8"@,
        Problem::NoOptionsSection => "no [options] section for the XferCommand"@,
        Problem::MultipleOptionsSections => "multiple [options] sections"@,
        Problem::StagedBytes => "staged configuration did not match the planned bytes"@,
        Problem::StagedState => "staged configuration did not have the planned state"@,
        Problem::ForeignEditLock => "the edit lock does not belong to RustyPac"@,
        Problem::NotRegular => "the configuration is not a regular file"@,
        Problem::HardLinked => "the configuration has more than one hard link"@,
        Problem::NoStagingName => "could not allocate a temporary configuration file"@,
    }
}

impl Problem {
    /// The words in which the problem is reported.
    pub fn message(self) -> (text: &'static str)
        ensures
            text@ == problem_text(self),
    {
        match self {
            Problem::MultiplePreserved => "multiple preserved XferCommand lines",
            Problem::MultipleRusty => "multiple RustyPac XferCommand lines",
            Problem::MultipleActive => "multiple active XferCommand lines",
            Problem::BothActive => "RustyPac and another XferCommand are both active",
            Problem::ActiveAndPreserved =>
                "both an active downloader and a preserved downloader are present",
            Problem::MalformedCommand => "malformed preserved XferCommand",
            Problem::MissingEquals => "XferCommand is missing '='",
            Problem::MissingCommand => "XferCommand has no command",
            Problem::MalformedComment => "malformed commented RustyPac XferCommand",
            Problem::ActiveNotUtf8 => "active XferCommand is not valid UTF-8",
            Problem::PreservedNotUtf8 => "preserved XferCommand is not valid UTF-8",
            Problem::NoOptionsSection => "no [options] section for the XferCommand",
            Problem::MultipleOptionsSections => "multiple [options] sections",
            Problem::StagedBytes => "staged configuration did not match the planned bytes",
            Problem::StagedState => "staged configuration did not have the planned state",
            Problem::ForeignEditLock => "the edit lock does not belong to RustyPac",
            Problem::NotRegular => "the configuration is not a regular file",
            Problem::HardLinked => "the configuration has more than one hard link",
            Problem::NoStagingName => "could not allocate a temporary configuration file",
        }
    }
}

/// Why a configuration cannot be read or edited.
#[derive(Debug, Clone, Eq, PartialEq)]
pub enum ConfigError {
    /// The configuration or the edit is refused, for the reason that the message gives.
    Invalid(String),
    /// The configuration is no longer the one that the edit was planned for.
    ChangedDuringEdit,
    /// A file cannot be read or written, for this reason.
    Io(String),
}

impl ConfigError {
    /// The error is the report of `problem`.
    pub open spec fn reports(self, problem: Problem) -> bool {
        self matches ConfigError::Invalid(message) && message@ == problem_text(problem)
    }

    /// What a user is told.
    pub open spec fn text(self) -> Seq<char> {
        match self {
            ConfigError::Invalid(message) => "invalid pacman configuration: "@ + message@,
            ConfigError::ChangedDuringEdit =>
                "pacman configuration changed while the edit was pending"@,
            ConfigError::Io(reason) => "pacman configuration update failed: "@ + reason@,
        }
    }

    /// The report of `problem`.
    pub fn invalid(problem: Problem) -> (error: ConfigError)
        ensures
            error.reports(problem),
    {
        ConfigError::Invalid(problem.message().to_owned())
    }

    /// What a user is told.
    pub fn message(&self) -> (message: String)
        ensures
            message@ == self.text(),
    {
        match self {
            ConfigError::Invalid(reason) => {
                let mut message: String = "invalid pacman configuration: ".to_owned();
                message.append(reason.as_str());
                message
            },
            ConfigError::ChangedDuringEdit => {
                "pacman configuration changed while the edit was pending".to_owned()
            },
            ConfigError::Io(reason) => {
                let mut message: String = "pacman configuration update failed: ".to_owned();
                message.append(reason.as_str());
                message
            },
        }
    }
}

/// The line that names `executable` as the downloader.
pub open spec fn command_text(executable: Seq<char>) -> Seq<char> {
    "XferCommand = "@ + executable + " %u %o"@
}

/// The bytes of the line that names `executable` as the downloader.
pub open spec fn command_bytes(executable: Seq<char>) -> Seq<u8> {
    encode_utf8(command_text(executable))
}

/// The line that names `executable` as the downloader.
pub fn active_command(executable: &str) -> (command: String)
    ensures
        command@ == command_text(executable@),
{
    let mut command: String = "XferCommand = ".to_owned();
    command.append(executable);
    command.append(" %u %o");
    command
}

/// `line` sets the option that names the downloader, well or badly.
pub open spec fn names_option(line: Seq<u8>) -> bool {
    let name = encode_utf8(XFER_COMMAND@);
    bytes::has_prefix(line, name) && (line.len() == name.len() || bytes::is_space(
        line[name.len() as int],
    ) || line[name.len() as int] == EQUALS)
}

/// What is wrong with `line` as a setting of that option, if anything is.
pub open spec fn command_problem(line: Seq<u8>) -> Option<Problem> {
    let rest = bytes::trim_start(line.skip(encode_utf8(XFER_COMMAND@).len() as int));
    if !names_option(line) {
        Some(Problem::MalformedCommand)
    } else if rest.len() == 0 || rest[0] != EQUALS {
        Some(Problem::MissingEquals)
    } else if bytes::trim(rest.skip(1)).len() == 0 {
        Some(Problem::MissingCommand)
    } else {
        None
    }
}

/// `line` sets the option that names the downloader, well or badly.
pub fn starts_with_xfer_command(line: &[u8]) -> (named: bool)
    ensures
        named == names_option(line@),
{
    let name: &[u8] = XFER_COMMAND.as_bytes();
    if !starts_with(line, name) {
        return false;
    }
    line.len() == name.len() || is_ascii_space(line[name.len()]) || line[name.len()] == EQUALS
}

/// What is wrong with `line` as a setting of that option, if anything is.
pub fn validate_xfer_command(line: &[u8]) -> (problem: Option<Problem>)
    ensures
        problem == command_problem(line@),
{
    if !starts_with_xfer_command(line) {
        return Some(Problem::MalformedCommand);
    }
    let name: &[u8] = XFER_COMMAND.as_bytes();
    let rest: &[u8] = trim_ascii_start(vstd::slice::slice_subrange(line, name.len(), line.len()));
    assert(line@.subrange(name@.len() as int, line@.len() as int) =~= line@.skip(
        name@.len() as int,
    ));
    if rest.len() == 0 || rest[0] != EQUALS {
        return Some(Problem::MissingEquals);
    }
    let command: &[u8] = trim_ascii(vstd::slice::slice_subrange(rest, 1, rest.len()));
    assert(rest@.subrange(1, rest@.len() as int) =~= rest@.skip(1));
    if command.len() == 0 {
        return Some(Problem::MissingCommand);
    }
    None
}

/// What a line is to an edit of the configuration.
#[derive(Debug, Clone, Copy, Eq, PartialEq, Structural)]
pub enum LineKind {
    /// A downloader that was set aside, and what is wrong with it.
    Preserved(Option<Problem>),
    /// This program, commented out.
    Commented,
    /// This program, commented out in a form that cannot be enabled again.
    MalformedComment,
    /// This program, named as the downloader.
    Installed,
    /// Another program, named as the downloader.
    Foreign,
    /// A setting of the option that names no downloader.
    BadCommand(Problem),
    /// The header of the options section.
    Options,
    /// The header of another section.
    Section,
    /// Anything else.
    Unrelated,
}

/// The command that a preserved line holds, with the white space around it.
pub open spec fn payload(content: Seq<u8>) -> Seq<u8> {
    bytes::trim_start(content).skip(encode_utf8(PRESERVED_PREFIX@).len() as int)
}

/// What a line with this content is to an edit that installs or removes `executable`.
pub open spec fn line_kind(content: Seq<u8>, executable: Seq<char>) -> LineKind {
    let text = bytes::trim(content);
    if bytes::has_prefix(text, encode_utf8(PRESERVED_PREFIX@)) {
        LineKind::Preserved(command_problem(bytes::trim(payload(content))))
    } else if text.len() > 0 && text[0] == HASH {
        let comment = bytes::trim_start(text.skip(1));
        if comment == command_bytes(executable) {
            LineKind::Commented
        } else if bytes::has_prefix(comment, encode_utf8(XFER_COMMAND@)) && bytes::has_part(
            comment,
            encode_utf8(executable),
        ) {
            LineKind::MalformedComment
        } else {
            LineKind::Unrelated
        }
    } else if names_option(text) {
        match command_problem(text) {
            Some(problem) => LineKind::BadCommand(problem),
            None => if text == command_bytes(executable) {
                LineKind::Installed
            } else {
                LineKind::Foreign
            },
        }
    } else if text == encode_utf8(OPTIONS_HEADER@) {
        LineKind::Options
    } else if text.len() > 0 && text[0] == OPEN_BRACKET && text.last() == CLOSE_BRACKET {
        LineKind::Section
    } else {
        LineKind::Unrelated
    }
}

/// The command that a preserved line holds, with the white space around it.
fn preserved_payload(content: &[u8]) -> (command: &[u8])
    requires
        bytes::has_prefix(bytes::trim_start(content@), encode_utf8(PRESERVED_PREFIX@)),
    ensures
        command@ == payload(content@),
{
    let text: &[u8] = trim_ascii_start(content);
    let prefix: &[u8] = PRESERVED_PREFIX.as_bytes();
    assert(text@.subrange(prefix@.len() as int, text@.len() as int) =~= payload(content@));
    vstd::slice::slice_subrange(text, prefix.len(), text.len())
}

/// What stands behind the hash sign of a comment, without the white space before it.
pub fn strip_comment(line: &[u8]) -> (comment: Option<&[u8]>)
    ensures
        comment is Some <==> line@.len() > 0 && line@[0] == HASH,
        comment matches Some(rest) ==> rest@ == bytes::trim_start(line@.skip(1)),
{
    if line.len() == 0 || line[0] != HASH {
        return None;
    }
    assert(line@.subrange(1, line@.len() as int) =~= line@.skip(1));
    Some(trim_ascii_start(vstd::slice::slice_subrange(line, 1, line.len())))
}

/// A prefix of trimmed text is a prefix of the text that was trimmed at its start only.
pub proof fn lemma_prefix_of_trimmed(content: Seq<u8>, prefix: Seq<u8>)
    requires
        bytes::has_prefix(bytes::trim(content), prefix),
    ensures
        bytes::has_prefix(bytes::trim_start(content), prefix),
{
    crate::bytes::lemma_trim_end(bytes::trim_start(content));
    assert(bytes::trim_start(content).take(prefix.len() as int) =~= bytes::trim(content).take(
        prefix.len() as int,
    ));
}

/// What a line with this content is to an edit that installs or removes `executable`.
fn classify(content: &[u8], executable: &str, active: &str) -> (kind: LineKind)
    requires
        active@ == command_text(executable@),
    ensures
        kind == line_kind(content@, executable@),
{
    let text: &[u8] = trim_ascii(content);
    if starts_with(text, PRESERVED_PREFIX.as_bytes()) {
        proof {
            lemma_prefix_of_trimmed(content@, encode_utf8(PRESERVED_PREFIX@));
        }
        let command: &[u8] = trim_ascii(preserved_payload(content));
        return LineKind::Preserved(validate_xfer_command(command));
    }
    if let Some(comment) = strip_comment(text) {
        return if equal(comment, active.as_bytes()) {
            LineKind::Commented
        } else if starts_with(comment, XFER_COMMAND.as_bytes()) && contains(
            comment,
            executable.as_bytes(),
        ) {
            LineKind::MalformedComment
        } else {
            LineKind::Unrelated
        };
    }
    if starts_with_xfer_command(text) {
        return match validate_xfer_command(text) {
            Some(problem) => LineKind::BadCommand(problem),
            None => {
                if equal(text, active.as_bytes()) {
                    LineKind::Installed
                } else {
                    LineKind::Foreign
                }
            },
        };
    }
    if equal(text, OPTIONS_HEADER.as_bytes()) {
        LineKind::Options
    } else if text.len() > 0 && text[0] == OPEN_BRACKET && text[text.len() - 1]
        == CLOSE_BRACKET {
        LineKind::Section
    } else {
        LineKind::Unrelated
    }
}

/// The kinds of `lines`.
pub open spec fn line_kinds(lines: Seq<LineView>, executable: Seq<char>) -> Seq<LineKind> {
    lines.map_values(|line: LineView| line_kind(line.content, executable))
}

/// Which lines an edit is about.
pub ghost struct ScanView {
    /// The line that names this program.
    pub rusty: Option<int>,
    /// That line is commented out.
    pub disabled: bool,
    /// The line that names another program.
    pub foreign: Option<int>,
    /// The line that holds a downloader that was set aside.
    pub preserved: Option<int>,
}

/// The scan of no lines.
pub open spec fn empty_scan() -> ScanView {
    ScanView { rusty: None, disabled: false, foreign: None, preserved: None }
}

/// The scan once the line at `index` is known too.
pub open spec fn scan_line(scan: ScanView, index: int, kind: LineKind) -> Result<
    ScanView,
    Problem,
> {
    match kind {
        LineKind::Preserved(problem) => if scan.preserved is Some {
            Err(Problem::MultiplePreserved)
        } else {
            match problem {
                Some(found) => Err(found),
                None => Ok(ScanView { preserved: Some(index), ..scan }),
            }
        },
        LineKind::Commented => if scan.rusty is Some {
            Err(Problem::MultipleRusty)
        } else {
            Ok(ScanView { rusty: Some(index), disabled: true, ..scan })
        },
        LineKind::MalformedComment => Err(Problem::MalformedComment),
        LineKind::Installed => if scan.rusty is Some {
            Err(Problem::MultipleRusty)
        } else {
            Ok(ScanView { rusty: Some(index), disabled: false, ..scan })
        },
        LineKind::Foreign => if scan.foreign is Some {
            Err(Problem::MultipleActive)
        } else {
            Ok(ScanView { foreign: Some(index), ..scan })
        },
        LineKind::BadCommand(problem) => Err(problem),
        LineKind::Options | LineKind::Section | LineKind::Unrelated => Ok(scan),
    }
}

/// The scan of lines of these kinds, or the first problem among them.
pub open spec fn scan_kinds(kinds: Seq<LineKind>) -> Result<ScanView, Problem>
    decreases kinds.len(),
{
    if kinds.len() == 0 {
        Ok(empty_scan())
    } else {
        match scan_kinds(kinds.drop_last()) {
            Err(problem) => Err(problem),
            Ok(scan) => scan_line(scan, kinds.len() - 1, kinds.last()),
        }
    }
}

/// What a scan says of the configuration as a whole.
pub open spec fn scan_state(lines: Seq<LineView>, scan: ScanView) -> Result<StateView, Problem> {
    if scan.rusty is Some && !scan.disabled {
        if scan.foreign is Some {
            Err(Problem::BothActive)
        } else {
            Ok(StateView::Active)
        }
    } else if scan.foreign is Some {
        let content = lines[scan.foreign->0].content;
        if valid_utf8(content) {
            Ok(StateView::Conflicting { line: decode_utf8(content) })
        } else {
            Err(Problem::ActiveNotUtf8)
        }
    } else if scan.rusty is Some {
        Ok(StateView::Disabled)
    } else {
        Ok(StateView::Absent)
    }
}

/// The scan and the state of a configuration with these lines.
pub open spec fn analysis(lines: Seq<LineView>, executable: Seq<char>) -> Result<
    (ScanView, StateView),
    Problem,
> {
    match scan_kinds(line_kinds(lines, executable)) {
        Err(problem) => Err(problem),
        Ok(scan) => match scan_state(lines, scan) {
            Err(problem) => Err(problem),
            Ok(state) => Ok((scan, state)),
        },
    }
}

/// The state of a configuration as the program `executable` sees it.
pub open spec fn config_state(contents: Seq<u8>, executable: Seq<char>) -> Result<
    StateView,
    Problem,
> {
    match analysis(lines::split_lines(contents), executable) {
        Err(problem) => Err(problem),
        Ok((_, state)) => Ok(state),
    }
}

/// Which lines of a configuration an edit is about, and its state.
struct Analysis {
    lines: Vec<Line>,
    state: ConfigState,
    rusty: Option<usize>,
    rusty_disabled: bool,
    conflicting: Option<usize>,
    preserved: Option<usize>,
}

/// The index as a mathematical integer.
spec fn index_view(index: Option<usize>) -> Option<int> {
    match index {
        Some(position) => Some(position as int),
        None => None,
    }
}

impl Analysis {
    /// The scan that the analysis holds.
    spec fn scan(self) -> ScanView {
        ScanView {
            rusty: index_view(self.rusty),
            disabled: self.rusty_disabled,
            foreign: index_view(self.conflicting),
            preserved: index_view(self.preserved),
        }
    }
}

/// Every index that a scan holds is that of a line, and of a line of its kind.
proof fn lemma_scan_indices(kinds: Seq<LineKind>)
    ensures
        scan_kinds(kinds) matches Ok(scan) ==> {
            &&& scan.rusty matches Some(index) ==> 0 <= index < kinds.len()
            &&& scan.foreign matches Some(index) ==> 0 <= index < kinds.len()
            &&& scan.preserved matches Some(index) ==> 0 <= index < kinds.len()
                && kinds[index] is Preserved
        },
    decreases kinds.len(),
{
    if kinds.len() > 0 {
        lemma_scan_indices(kinds.drop_last());
    }
}

/// The analysis of `contents` for the program `executable`, or the report of why there is none.
fn analyze(contents: &[u8], executable: &str) -> (analyzed: Result<Analysis, ConfigError>)
    ensures
        match analysis(lines::split_lines(contents@), executable@) {
            Ok((scan, state)) => analyzed matches Ok(found) && found.scan() == scan
                && found.state@ == state && lines::line_views(found.lines@) == lines::split_lines(
                contents@,
            ),
            Err(problem) => analyzed matches Err(error) && error.reports(problem),
        },
{
    match inspect(contents, executable) {
        Ok(analysis) => Ok(analysis),
        Err(problem) => Err(ConfigError::invalid(problem)),
    }
}

/// The analysis of `contents` for the program `executable`, or why there is none.
fn inspect(contents: &[u8], executable: &str) -> (analyzed: Result<Analysis, Problem>)
    ensures
        match analysis(lines::split_lines(contents@), executable@) {
            Ok((scan, state)) => analyzed matches Ok(found) && found.scan() == scan
                && found.state@ == state && lines::line_views(found.lines@) == lines::split_lines(
                contents@,
            ),
            Err(problem) => analyzed matches Err(found) && found == problem,
        },
{
    let active: String = active_command(executable);
    let all: Vec<Line> = lines(contents);
    let ghost kinds = line_kinds(lines::line_views(all@), executable@);
    let mut rusty: Option<usize> = None;
    let mut rusty_disabled: bool = false;
    let mut conflicting: Option<usize> = None;
    let mut preserved: Option<usize> = None;
    let mut index: usize = 0;
    proof {
        assert(kinds.take(0) =~= seq![]);
    }
    while index < all.len()
        invariant
            index <= all@.len(),
            active@ == command_text(executable@),
            lines::line_views(all@) == lines::split_lines(contents@),
            kinds == line_kinds(lines::line_views(all@), executable@),
            scan_kinds(kinds.take(index as int)) == Ok::<ScanView, Problem>(
                ScanView {
                    rusty: index_view(rusty),
                    disabled: rusty_disabled,
                    foreign: index_view(conflicting),
                    preserved: index_view(preserved),
                },
            ),
        decreases all@.len() - index,
    {
        let kind: LineKind = classify(all[index].content.as_slice(), executable, active.as_str());
        let ghost before = kinds.take(index as int);
        proof {
            assert(kinds.take(index + 1).drop_last() =~= before);
            assert(kinds.take(index + 1).last() == kind);
        }
        let mut problem: Option<Problem> = None;
        match kind {
            LineKind::Preserved(found) => {
                if preserved.is_some() {
                    problem = Some(Problem::MultiplePreserved);
                } else {
                    problem = found;
                    preserved = Some(index);
                }
            },
            LineKind::Commented => {
                if rusty.is_some() {
                    problem = Some(Problem::MultipleRusty);
                } else {
                    rusty = Some(index);
                    rusty_disabled = true;
                }
            },
            LineKind::MalformedComment => {
                problem = Some(Problem::MalformedComment);
            },
            LineKind::Installed => {
                if rusty.is_some() {
                    problem = Some(Problem::MultipleRusty);
                } else {
                    rusty = Some(index);
                    rusty_disabled = false;
                }
            },
            LineKind::Foreign => {
                if conflicting.is_some() {
                    problem = Some(Problem::MultipleActive);
                } else {
                    conflicting = Some(index);
                }
            },
            LineKind::BadCommand(found) => {
                problem = Some(found);
            },
            LineKind::Options | LineKind::Section | LineKind::Unrelated => {},
        }
        if let Some(found) = problem {
            proof {
                lemma_scan_error(kinds, index + 1);
            }
            return Err(found);
        }
        index += 1;
    }
    proof {
        assert(kinds.take(index as int) =~= kinds);
        lemma_scan_indices(kinds);
    }
    let state: ConfigState = if rusty.is_some() && !rusty_disabled {
        if conflicting.is_some() {
            return Err(Problem::BothActive);
        }
        ConfigState::Active
    } else if let Some(conflict) = conflicting {
        match decode(all[conflict].content.clone()) {
            Some(line) => ConfigState::Conflicting { line },
            None => {
                return Err(Problem::ActiveNotUtf8);
            },
        }
    } else if rusty.is_some() {
        ConfigState::Disabled
    } else {
        ConfigState::Absent
    };
    Ok(Analysis { lines: all, state, rusty, rusty_disabled, conflicting, preserved })
}

/// A problem among the first lines is the problem of all of them.
pub proof fn lemma_scan_error(kinds: Seq<LineKind>, count: int)
    requires
        0 <= count <= kinds.len(),
        scan_kinds(kinds.take(count)) is Err,
    ensures
        scan_kinds(kinds) == scan_kinds(kinds.take(count)),
    decreases kinds.len() - count,
{
    if count == kinds.len() {
        assert(kinds.take(count) =~= kinds);
    } else {
        assert(kinds.take(count + 1).drop_last() =~= kinds.take(count));
        lemma_scan_error(kinds, count + 1);
    }
}

/// The state of the configuration `contents`, as the installed program sees it.
pub fn state(contents: &[u8]) -> (found: Result<ConfigState, ConfigError>)
    ensures
        match config_state(contents@, INSTALLED_EXECUTABLE@) {
            Ok(expected) => found matches Ok(actual) && actual@ == expected,
            Err(problem) => found matches Err(error) && error.reports(problem),
        },
{
    match analyze(contents, INSTALLED_EXECUTABLE) {
        Ok(analysis) => Ok(analysis.state),
        Err(error) => Err(error),
    }
}

/// The configuration holds a downloader that was set aside.
pub open spec fn preserves_downloader(contents: Seq<u8>, executable: Seq<char>) -> Result<
    bool,
    Problem,
> {
    match analysis(lines::split_lines(contents), executable) {
        Err(problem) => Err(problem),
        Ok((scan, _)) => Ok(scan.preserved is Some),
    }
}

/// The configuration `contents` holds a downloader that was set aside.
pub fn has_preserved_downloader(contents: &[u8]) -> (found: Result<bool, ConfigError>)
    ensures
        match preserves_downloader(contents@, INSTALLED_EXECUTABLE@) {
            Ok(expected) => found matches Ok(actual) && actual == expected,
            Err(problem) => found matches Err(error) && error.reports(problem),
        },
{
    match analyze(contents, INSTALLED_EXECUTABLE) {
        Ok(analysis) => Ok(analysis.preserved.is_some()),
        Err(error) => Err(error),
    }
}

/// The model of [`EditPlan`].
pub ghost struct PlanView {
    /// The bytes that the edit is planned for.
    pub original: Seq<u8>,
    /// The bytes that the edit leaves.
    pub replacement: Seq<u8>,
    /// The state of the original bytes.
    pub initial: StateView,
    /// The state that the edit is meant to reach.
    pub expected: StateView,
    /// The program that the edit is about.
    pub executable: Seq<char>,
}

/// An edit of a configuration that is yet to be applied.
#[derive(Debug)]
pub struct EditPlan {
    original: Vec<u8>,
    replacement: Vec<u8>,
    initial_state: ConfigState,
    expected_state: ConfigState,
    executable: String,
}

impl View for EditPlan {
    type V = PlanView;

    closed spec fn view(&self) -> PlanView {
        PlanView {
            original: self.original@,
            replacement: self.replacement@,
            initial: self.initial_state@,
            expected: self.expected_state@,
            executable: self.executable@,
        }
    }
}

/// Whether staged bytes may replace the configuration, and if not, why.
pub open spec fn staged_problem(plan: PlanView, staged: Seq<u8>) -> Option<Problem> {
    if staged != plan.replacement {
        Some(Problem::StagedBytes)
    } else {
        match config_state(staged, plan.executable) {
            Err(problem) => Some(problem),
            Ok(state) => if state == plan.expected {
                None
            } else {
                Some(Problem::StagedState)
            },
        }
    }
}

impl EditPlan {
    /// The state of the configuration that the edit is planned for.
    pub fn initial_state(&self) -> (state: &ConfigState)
        ensures
            state@ == self@.initial,
    {
        &self.initial_state
    }

    /// The edit changes the configuration.
    pub fn changed(&self) -> (changed: bool)
        ensures
            changed == (self@.original != self@.replacement),
    {
        !equal(self.original.as_slice(), self.replacement.as_slice())
    }

    /// The bytes that the edit leaves.
    pub fn contents(&self) -> (contents: &[u8])
        ensures
            contents@ == self@.replacement,
    {
        self.replacement.as_slice()
    }

    /// Accepts `current` if it is the configuration that the edit is planned for.
    pub fn verify_source(&self, current: &[u8]) -> (verdict: Result<(), ConfigError>)
        ensures
            verdict is Ok <==> current@ == self@.original,
            verdict matches Err(error) ==> error is ChangedDuringEdit,
    {
        if equal(current, self.original.as_slice()) {
            Ok(())
        } else {
            Err(ConfigError::ChangedDuringEdit)
        }
    }

    /// Whether staged bytes may replace the configuration, being what the edit is to leave and
    /// having the state it is to reach, and if not, why.
    pub fn staged_refusal(&self, staged: &[u8]) -> (refusal: Option<Problem>)
        ensures
            refusal == staged_problem(self@, staged@),
    {
        if !equal(staged, self.replacement.as_slice()) {
            return Some(Problem::StagedBytes);
        }
        match inspect(staged, self.executable.as_str()) {
            Err(problem) => Some(problem),
            Ok(analysis) => {
                if analysis.state.same(&self.expected_state) {
                    None
                } else {
                    Some(Problem::StagedState)
                }
            },
        }
    }
}

/// The line ending that a configuration uses.
pub open spec fn newline(contents: Seq<u8>) -> Seq<u8> {
    if bytes::has_crlf(contents) {
        lines::carriage_return_line_feed()
    } else {
        lines::line_feed()
    }
}

/// The line ending that a configuration uses.
pub fn preferred_newline(contents: &[u8]) -> (ending: Vec<u8>)
    ensures
        ending@ == newline(contents@),
{
    if contains_crlf(contents) {
        vec![13u8, 10u8]
    } else {
        vec![10u8]
    }
}

/// `lines` with the content of the line at `index` changed to `content`.
pub open spec fn with_content(lines: Seq<LineView>, index: int, content: Seq<u8>) -> Seq<
    LineView,
> {
    lines.update(index, LineView { content, ending: lines[index].ending })
}

/// `lines` with a new line before the one at `index`, after the line before has been ended.
pub open spec fn with_line(
    lines: Seq<LineView>,
    index: int,
    content: Seq<u8>,
    ending: Seq<u8>,
) -> Seq<LineView> {
    let ended = if index > 0 && lines[index - 1].ending.len() == 0 {
        lines.update(index - 1, LineView { content: lines[index - 1].content, ending })
    } else {
        lines
    };
    ended.insert(index, LineView { content, ending })
}

/// Where lines of these kinds hold the header of the options section.
pub open spec fn options_header(kinds: Seq<LineKind>) -> Result<int, Problem>
    decreases kinds.len(),
{
    if kinds.len() == 0 {
        Err(Problem::NoOptionsSection)
    } else if kinds.last() == LineKind::Options {
        match options_header(kinds.drop_last()) {
            Err(Problem::NoOptionsSection) => Ok(kinds.len() - 1),
            _ => Err(Problem::MultipleOptionsSections),
        }
    } else {
        options_header(kinds.drop_last())
    }
}

/// Where the section ends to which the line before `from` belongs.
pub open spec fn section_end(kinds: Seq<LineKind>, from: int) -> int
    decreases kinds.len() - from,
{
    if from >= kinds.len() || kinds[from] == LineKind::Section {
        from
    } else {
        section_end(kinds, from + 1)
    }
}

/// Where a line that names this program is inserted.
pub open spec fn insertion_point(kinds: Seq<LineKind>, scan: ScanView) -> Result<int, Problem> {
    match scan.foreign {
        Some(index) => Ok(index + 1),
        None => match options_header(kinds) {
            Ok(header) => Ok(section_end(kinds, header + 1)),
            Err(problem) => Err(problem),
        },
    }
}

/// The line as a downloader that is set aside.
pub open spec fn preserved_content(content: Seq<u8>) -> Seq<u8> {
    encode_utf8(PRESERVED_PREFIX@) + content
}

/// The content of the line once it names this program.
pub open spec fn enabled_content(content: Seq<u8>, executable: Seq<char>) -> Seq<u8> {
    bytes::indentation(content) + command_bytes(executable)
}

/// The content of the line once it names this program in a comment.
pub open spec fn disabled_content(content: Seq<u8>, executable: Seq<char>) -> Seq<u8> {
    bytes::indentation(content) + seq![HASH] + command_bytes(executable)
}

/// The lines of a configuration that does not name this program, once it does.
pub open spec fn enabled_lines(
    lines: Seq<LineView>,
    scan: ScanView,
    executable: Seq<char>,
    ending: Seq<u8>,
) -> Result<Seq<LineView>, Problem> {
    let kept = match scan.foreign {
        Some(index) => with_content(lines, index, preserved_content(lines[index].content)),
        None => lines,
    };
    match scan.rusty {
        Some(index) => Ok(
            with_content(kept, index, enabled_content(lines[index].content, executable)),
        ),
        None => match insertion_point(line_kinds(lines, executable), scan) {
            Ok(index) => Ok(with_line(kept, index, command_bytes(executable), ending)),
            Err(problem) => Err(problem),
        },
    }
}

/// The plan that makes `executable` the downloader of the configuration `contents`.
pub open spec fn enable_plan(contents: Seq<u8>, executable: Seq<char>) -> Result<
    PlanView,
    Problem,
> {
    let lines = lines::split_lines(contents);
    match analysis(lines, executable) {
        Err(problem) => Err(problem),
        Ok((scan, state)) => if state is Active {
            Ok(
                PlanView {
                    original: contents,
                    replacement: contents,
                    initial: state,
                    expected: StateView::Active,
                    executable,
                },
            )
        } else if scan.foreign is Some && scan.preserved is Some {
            Err(Problem::ActiveAndPreserved)
        } else {
            match enabled_lines(lines, scan, executable, newline(contents)) {
                Err(problem) => Err(problem),
                Ok(enabled) => Ok(
                    PlanView {
                        original: contents,
                        replacement: lines::join_lines(enabled),
                        initial: state,
                        expected: StateView::Active,
                        executable,
                    },
                ),
            }
        },
    }
}

/// The lines of a configuration that names this program, once it does so only in a comment,
/// with the preserved downloader named again if it is to be.
pub open spec fn disabled_lines(
    lines: Seq<LineView>,
    scan: ScanView,
    executable: Seq<char>,
    choice: DisableChoice,
) -> Seq<LineView> {
    let commented = with_content(
        lines,
        scan.rusty->0,
        disabled_content(lines[scan.rusty->0].content, executable),
    );
    if choice == DisableChoice::Existing && scan.preserved is Some {
        with_content(commented, scan.preserved->0, payload(lines[scan.preserved->0].content))
    } else {
        commented
    }
}

/// The plan that stops `executable` from being the downloader of the configuration `contents`.
pub open spec fn disable_plan(
    contents: Seq<u8>,
    executable: Seq<char>,
    choice: DisableChoice,
) -> Result<PlanView, Problem> {
    let lines = lines::split_lines(contents);
    match analysis(lines, executable) {
        Err(problem) => Err(problem),
        Ok((scan, state)) => if state !is Active {
            Ok(
                PlanView {
                    original: contents,
                    replacement: contents,
                    initial: state,
                    expected: state,
                    executable,
                },
            )
        } else if choice == DisableChoice::Existing && scan.preserved is Some {
            let restored = payload(lines[scan.preserved->0].content);
            if valid_utf8(restored) {
                Ok(
                    PlanView {
                        original: contents,
                        replacement: lines::join_lines(
                            disabled_lines(lines, scan, executable, choice),
                        ),
                        initial: state,
                        expected: StateView::Conflicting { line: decode_utf8(restored) },
                        executable,
                    },
                )
            } else {
                Err(Problem::PreservedNotUtf8)
            }
        } else {
            Ok(
                PlanView {
                    original: contents,
                    replacement: lines::join_lines(disabled_lines(lines, scan, executable, choice)),
                    initial: state,
                    expected: StateView::Disabled,
                    executable,
                },
            )
        },
    }
}

/// Changes the content of the line at `index`.
fn set_content(all: &mut Vec<Line>, index: usize, content: Vec<u8>)
    requires
        index < old(all)@.len(),
    ensures
        lines::line_views(final(all)@) == with_content(
            lines::line_views(old(all)@),
            index as int,
            content@,
        ),
{
    let ghost before = all@;
    let ending: Vec<u8> = all[index].ending.clone();
    all[index] = Line { content, ending };
    proof {
        assert(all@[index as int]@.ending =~= before[index as int]@.ending);
        assert(lines::line_views(all@) =~= with_content(
            lines::line_views(before),
            index as int,
            content@,
        ));
    }
}

/// Inserts a line before the one at `index`, after it has ended the line before.
fn insert_line(all: &mut Vec<Line>, index: usize, content: Vec<u8>, ending: &Vec<u8>)
    requires
        index <= old(all)@.len(),
    ensures
        lines::line_views(final(all)@) == with_line(
            lines::line_views(old(all)@),
            index as int,
            content@,
            ending@,
        ),
{
    let ghost before = all@;
    if index > 0 && all[index - 1].ending.len() == 0 {
        let last: Vec<u8> = all[index - 1].content.clone();
        let new_ending: Vec<u8> = ending.clone();
        all[index - 1] = Line { content: last, ending: new_ending };
        proof {
            assert(all@[index - 1]@.content =~= before[index - 1]@.content);
            assert(all@[index - 1]@.ending =~= ending@);
        }
    }
    let ghost ended = all@;
    let line_ending: Vec<u8> = ending.clone();
    all.insert(index, Line { content, ending: line_ending });
    proof {
        assert(all@[index as int]@.ending =~= ending@);
        assert(lines::line_views(all@) =~= lines::line_views(ended).insert(
            index as int,
            LineView { content: content@, ending: ending@ },
        ));
        assert(lines::line_views(all@) =~= with_line(
            lines::line_views(before),
            index as int,
            content@,
            ending@,
        ));
    }
}

/// Where a line is inserted so that it is the last of the options section.
fn options_end(all: &Vec<Line>, executable: &str, active: &str) -> (end: Result<usize, Problem>)
    requires
        active@ == command_text(executable@),
    ensures
        ({
            let kinds = line_kinds(lines::line_views(all@), executable@);
            match options_header(kinds) {
                Ok(header) => end matches Ok(index) && index == section_end(kinds, header + 1)
                    && index <= all@.len(),
                Err(problem) => end == Err::<usize, Problem>(problem),
            }
        }),
{
    let ghost kinds = line_kinds(lines::line_views(all@), executable@);
    let mut header: Result<usize, Problem> = Err(Problem::NoOptionsSection);
    let mut index: usize = 0;
    assert(kinds.take(0) =~= seq![]);
    while index < all.len()
        invariant
            index <= all@.len(),
            active@ == command_text(executable@),
            kinds == line_kinds(lines::line_views(all@), executable@),
            match options_header(kinds.take(index as int)) {
                Ok(position) => header matches Ok(found) && found == position && found < index,
                Err(problem) => header == Err::<usize, Problem>(problem),
            },
        decreases all@.len() - index,
    {
        let kind: LineKind = classify(all[index].content.as_slice(), executable, active);
        proof {
            assert(kinds.take(index + 1).drop_last() =~= kinds.take(index as int));
            assert(kinds.take(index + 1).last() == kind);
        }
        if kind == LineKind::Options {
            header = match header {
                Err(Problem::NoOptionsSection) => Ok(index),
                _ => Err(Problem::MultipleOptionsSections),
            };
        }
        index += 1;
    }
    assert(kinds.take(index as int) =~= kinds);
    match header {
        Err(problem) => Err(problem),
        Ok(found) => {
            let mut end: usize = found + 1;
            while end < all.len()
                invariant
                    found < end <= all@.len(),
                    options_header(kinds) == Ok::<int, Problem>(found as int),
                    active@ == command_text(executable@),
                    kinds == line_kinds(lines::line_views(all@), executable@),
                    section_end(kinds, end as int) == section_end(kinds, found + 1),
                decreases all@.len() - end,
            {
                let kind: LineKind = classify(all[end].content.as_slice(), executable, active);
                assert(kinds[end as int] == kind);
                if kind == LineKind::Section {
                    return Ok(end);
                }
                end += 1;
            }
            Ok(end)
        },
    }
}

/// Plans the edit that makes `executable` the downloader of the configuration `contents`: a
/// downloader that is named now is set aside, and the line that names `executable` is
/// uncommented or inserted.
pub fn plan_enable(contents: &[u8], executable: &str) -> (planned: Result<EditPlan, ConfigError>)
    ensures
        match enable_plan(contents@, executable@) {
            Ok(view) => planned matches Ok(plan) && plan@ == view,
            Err(problem) => planned matches Err(error) && error.reports(problem),
        },
{
    let analysis: Analysis = match analyze(contents, executable) {
        Ok(found) => found,
        Err(error) => {
            return Err(error);
        },
    };
    let initial_state: ConfigState = analysis.state.duplicate();
    if let ConfigState::Active = analysis.state {
        return Ok(
            EditPlan {
                original: slice_to_vec(contents),
                replacement: slice_to_vec(contents),
                initial_state,
                expected_state: ConfigState::Active,
                executable: executable.to_owned(),
            },
        );
    }
    if analysis.conflicting.is_some() && analysis.preserved.is_some() {
        return Err(ConfigError::invalid(Problem::ActiveAndPreserved));
    }
    let active: String = active_command(executable);
    let ending: Vec<u8> = preferred_newline(contents);
    let mut edited: Vec<Line> = analysis.lines;
    let ghost before = lines::line_views(edited@);
    proof {
        lemma_scan_indices(line_kinds(before, executable@));
        assert(line_kinds(before, executable@).len() == edited.len());
    }
    let insertion: Result<usize, Problem> = match analysis.conflicting {
        Some(conflict) => Ok(conflict + 1),
        None => {
            if analysis.rusty.is_none() {
                options_end(&edited, executable, active.as_str())
            } else {
                Ok(0)
            }
        },
    };
    let indent: Vec<u8> = match analysis.rusty {
        Some(rusty) => slice_to_vec(leading_indentation(edited[rusty].content.as_slice())),
        None => Vec::new(),
    };
    if let Some(conflict) = analysis.conflicting {
        let mut preserved: Vec<u8> = slice_to_vec(PRESERVED_PREFIX.as_bytes());
        preserved.extend_from_slice(edited[conflict].content.as_slice());
        assert(preserved@ =~= preserved_content(before[conflict as int].content));
        set_content(&mut edited, conflict, preserved);
    }
    match analysis.rusty {
        Some(rusty) => {
            let mut enabled: Vec<u8> = indent;
            enabled.extend_from_slice(active.as_str().as_bytes());
            assert(enabled@ =~= enabled_content(before[rusty as int].content, executable@));
            set_content(&mut edited, rusty, enabled);
        },
        None => {
            match insertion {
                Ok(index) => {
                    let line: Vec<u8> = slice_to_vec(active.as_str().as_bytes());
                    insert_line(&mut edited, index, line, &ending);
                },
                Err(problem) => {
                    return Err(ConfigError::invalid(problem));
                },
            }
        },
    }
    Ok(
        EditPlan {
            original: slice_to_vec(contents),
            replacement: join(&edited),
            initial_state,
            expected_state: ConfigState::Active,
            executable: executable.to_owned(),
        },
    )
}

/// Plans the edit that stops the installed program from being the downloader of the
/// configuration `contents`: the line that names it is commented out, and a downloader that
/// was set aside is named again if `choice` says so.
pub fn plan_disable(contents: &[u8], choice: DisableChoice) -> (planned: Result<
    EditPlan,
    ConfigError,
>)
    ensures
        match disable_plan(contents@, INSTALLED_EXECUTABLE@, choice) {
            Ok(view) => planned matches Ok(plan) && plan@ == view,
            Err(problem) => planned matches Err(error) && error.reports(problem),
        },
{
    let executable: &'static str = INSTALLED_EXECUTABLE;
    let analysis: Analysis = match analyze(contents, executable) {
        Ok(found) => found,
        Err(error) => {
            return Err(error);
        },
    };
    let initial_state: ConfigState = analysis.state.duplicate();
    let active_now: bool = match analysis.state {
        ConfigState::Active => true,
        _ => false,
    };
    let rusty: usize = match analysis.rusty {
        Some(index) if active_now => index,
        _ => {
            let expected_state: ConfigState = initial_state.duplicate();
            return Ok(
                EditPlan {
                    original: slice_to_vec(contents),
                    replacement: slice_to_vec(contents),
                    initial_state,
                    expected_state,
                    executable: executable.to_owned(),
                },
            );
        },
    };
    let active: String = active_command(executable);
    let mut edited: Vec<Line> = analysis.lines;
    let ghost before = lines::line_views(edited@);
    proof {
        lemma_scan_indices(line_kinds(before, executable@));
        lemma_scan_kinds_agree(before, executable@);
    }
    let mut commented: Vec<u8> = slice_to_vec(
        leading_indentation(edited[rusty].content.as_slice()),
    );
    commented.push(HASH);
    commented.extend_from_slice(active.as_str().as_bytes());
    assert(commented@ =~= disabled_content(before[rusty as int].content, executable@));
    let mut expected_state: ConfigState = ConfigState::Disabled;
    match analysis.preserved {
        Some(preserved) if choice == DisableChoice::Existing => {
            let restored: Vec<u8> = slice_to_vec(
                preserved_payload(edited[preserved].content.as_slice()),
            );
            match decode(restored.clone()) {
                Some(line) => {
                    expected_state = ConfigState::Conflicting { line };
                },
                None => {
                    return Err(ConfigError::invalid(Problem::PreservedNotUtf8));
                },
            }
            set_content(&mut edited, rusty, commented);
            set_content(&mut edited, preserved, restored);
        },
        _ => {
            set_content(&mut edited, rusty, commented);
        },
    }
    Ok(
        EditPlan {
            original: slice_to_vec(contents),
            replacement: join(&edited),
            initial_state,
            expected_state,
            executable: executable.to_owned(),
        },
    )
}

/// A line that the scan has as preserved starts with the words that set a downloader aside.
proof fn lemma_scan_kinds_agree(lines: Seq<LineView>, executable: Seq<char>)
    ensures
        scan_kinds(line_kinds(lines, executable)) matches Ok(scan) ==> (
        scan.preserved matches Some(index) ==> 0 <= index < lines.len() && bytes::has_prefix(
            bytes::trim_start(lines[index].content),
            encode_utf8(PRESERVED_PREFIX@),
        )),
{
    let kinds = line_kinds(lines, executable);
    lemma_scan_indices(kinds);
    if let Ok(scan) = scan_kinds(kinds) {
        if let Some(index) = scan.preserved {
            assert(kinds[index] == line_kind(lines[index].content, executable));
            lemma_prefix_of_trimmed(lines[index].content, encode_utf8(PRESERVED_PREFIX@));
        }
    }
}

} // verus!

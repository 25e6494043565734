//! The models of what goes into the library and of what comes out of it: they say what the values
//! hold, and leave nothing of it out.

use vstd::prelude::*;
use vstd::string::*;

use crate::cli::{Command, CommandView};
use crate::config;
use crate::config::{ConfigError, ConfigState, Problem, StateView};
use crate::config_apply::{ApplyEvent, ApplyEventView};
use crate::config_interaction::{DialogueEvent, DialogueEventView};
use crate::download;
use crate::frames;
use crate::lines;
use crate::lines::Line;
use crate::lock::{LockError, LockErrorView, LockEvent, LockEventView};
use crate::progress::ProgressModel;
use crate::render::Fields;

verus! {

/// What happens in a dialogue is what its model says.
pub proof fn dialogue_events_are_modelled_whole(event: DialogueEvent)
    ensures
        match event {
            DialogueEvent::Contents(read) => event@ matches DialogueEventView::Contents(seen) && (
            read matches Ok(bytes) ==> seen == Ok::<Seq<u8>, Seq<char>>(bytes@)) && (
            read matches Err(reason) ==> seen == Err::<Seq<u8>, Seq<char>>(reason@)),
            DialogueEvent::Answer(line) => event@ matches DialogueEventView::Answer(seen) && (
            line matches Ok(given) ==> seen == Ok::<Seq<char>, Seq<char>>(given@)) && (
            line matches Err(reason) ==> seen == Err::<Seq<char>, Seq<char>>(reason@)),
            DialogueEvent::Applied(outcome) => event@ matches DialogueEventView::Applied(seen) && (
            outcome matches Ok(None) ==> seen == Ok::<Option<Seq<char>>, Seq<char>>(None)) && (
            outcome matches Ok(Some(left)) ==> seen == Ok::<Option<Seq<char>>, Seq<char>>(
                Some(left@),
            )) && (outcome matches Err(reason) ==> seen == Err::<Option<Seq<char>>, Seq<char>>(
                reason@,
            )),
        },
{
}

/// What happens while an edit is applied is what its model says.
pub proof fn apply_events_are_modelled_whole(event: ApplyEvent)
    ensures
        match event {
            ApplyEvent::LockTaken { contents } => event@ == (ApplyEventView::LockTaken {
                contents: contents@,
            }),
            ApplyEvent::LockMarked => event@ is LockMarked,
            ApplyEvent::SourceRead { identity, regular, links, contents } => event@ == (
            ApplyEventView::SourceRead { identity, regular, links, contents: contents@ }),
            ApplyEvent::StageAllocated { directory } => event@ == (ApplyEventView::StageAllocated {
                directory: directory@,
            }),
            ApplyEvent::StageNameTaken => event@ is StageNameTaken,
            ApplyEvent::Staged { contents } => event@ == (ApplyEventView::Staged {
                contents: contents@,
            }),
            ApplyEvent::Exchanged => event@ is Exchanged,
            ApplyEvent::DisplacedRead { identity, contents } => event@ == (
            ApplyEventView::DisplacedRead { identity, contents: contents@ }),
            ApplyEvent::ExchangedBack => event@ is ExchangedBack,
            ApplyEvent::Discarded => event@ is Discarded,
            ApplyEvent::StageInspected { found } => event@ == (ApplyEventView::StageInspected {
                found,
            }),
            ApplyEvent::StageRemoved { left } => event@ matches ApplyEventView::StageRemoved {
                left: seen,
            } && (left is None ==> seen is None) && (left matches Some(directory) ==> seen == Some(
                directory@,
            )),
            ApplyEvent::Failed { reason } => event@ == (ApplyEventView::Failed { reason: reason@ }),
        },
{
}

/// What happens while a lock is taken is what its model says.
pub proof fn lock_events_are_modelled_whole(event: LockEvent)
    ensures
        match event {
            LockEvent::SelfRead(read) => event@ matches LockEventView::SelfRead(seen) && (
            read matches Ok(contents) ==> seen == Ok::<Seq<char>, Seq<char>>(contents@)) && (
            read matches Err(reason) ==> seen == Err::<Seq<char>, Seq<char>>(reason@)),
            LockEvent::Created { identity } => event@ == (LockEventView::Created { identity }),
            LockEvent::Exists => event@ is Exists,
            LockEvent::NotCreated { operation, reason } => event@ == (LockEventView::NotCreated {
                operation: operation@,
                reason: reason@,
            }),
            LockEvent::LockRead { contents, identity } => event@ == (LockEventView::LockRead {
                contents: contents@,
                identity,
            }),
            LockEvent::LockUnread { operation, reason } => event@ == (LockEventView::LockUnread {
                operation: operation@,
                reason: reason@,
            }),
            LockEvent::ProcessRead { contents } => event@ == (LockEventView::ProcessRead {
                contents: contents@,
            }),
            LockEvent::ProcessMissing => event@ is ProcessMissing,
            LockEvent::ProcessUnread { reason } => event@ == (LockEventView::ProcessUnread {
                reason: reason@,
            }),
            LockEvent::Removed(removed) => event@ matches LockEventView::Removed(seen) && (
            removed is Ok <==> seen is Ok) && (removed matches Err(reason) ==> seen == Err::<
                (),
                Seq<char>,
            >(reason@)),
        },
{
}

/// Why a lock is refused, which downloader a configuration names, and what the arguments ask for
/// is what the models of these say.
pub proof fn answers_are_modelled_whole(error: LockError, state: ConfigState, command: Command)
    ensures
        match error {
            LockError::Held { pid } => error@ == (LockErrorView::Held { pid }),
            LockError::Unverifiable { path, reason } => error@ == (LockErrorView::Unverifiable {
                path: path@,
                reason: reason@,
            }),
            LockError::Io { operation, path, reason } => error@ == (LockErrorView::Io {
                operation: operation@,
                path: path@,
                reason: reason@,
            }),
        },
        match state {
            ConfigState::Active => state@ is Active,
            ConfigState::Disabled => state@ is Disabled,
            ConfigState::Absent => state@ is Absent,
            ConfigState::Conflicting { line } => state@ == (StateView::Conflicting {
                line: line@,
            }),
        },
        match command {
            Command::Download { url, output } => command@ == (CommandView::Download {
                url: url@,
                output: output@,
            }),
            Command::Enable => command@ is Enable,
            Command::Disable => command@ is Disable,
        },
{
}

/// What is shown of a download, the fields of its row, and a line of a file hold what their models
/// say.
pub proof fn shown_values_are_modelled_whole(model: ProgressModel, fields: Fields, line: Line)
    ensures
        model@.filename == model.filename@,
        model@.state == model.state,
        model@.downloaded == model.downloaded,
        model@.total == model.total,
        model@.bytes_per_second == model.bytes_per_second,
        model@.elapsed == model.elapsed,
        model@.eta == model.eta,
        fields@.percentage == fields.percentage@,
        fields@.bar == fields.bar@,
        fields@.current == fields.current@,
        fields@.transfer == fields.transfer@,
        fields@.speed == fields.speed@,
        fields@.time == fields.time@,
        fields@.full_time == fields.full_time@,
        line@.content == line.content@,
        line@.ending == line.ending@,
{
}

/// What is written, what can be resumed, and the lines of a file are modelled one for one.
pub proof fn written_values_are_modelled_whole(
    written: Option<String>,
    resume: Option<Vec<u8>>,
    all: Seq<Line>,
    index: int,
)
    ensures
        written is None <==> frames::written_view(written) is None,
        written matches Some(row) ==> frames::written_view(written) == Some(row@),
        resume is None <==> download::bytes_of(resume) is None,
        resume matches Some(bytes) ==> download::bytes_of(resume) == Some(bytes@),
        lines::line_views(all).len() == all.len(),
        0 <= index < all.len() ==> lines::line_views(all)[index] == all[index]@,
{
}

/// A problem is reported in its words, and in no others, as that of the configuration.
pub proof fn problems_are_reported_in_their_words(error: ConfigError, problem: Problem)
    ensures
        error.reports(problem) ==> error.text() == "invalid pacman configuration: "@
            + config::problem_text(problem),
        error matches ConfigError::Invalid(words) ==> error.text()
            == "invalid pacman configuration: "@ + words@,
        error is ChangedDuringEdit ==> error.text()
            == "pacman configuration changed while the edit was pending"@,
        error matches ConfigError::Io(reason) ==> error.text()
            == "pacman configuration update failed: "@ + reason@,
{
}

} // verus!

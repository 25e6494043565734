//! What holds of every course of a download.

use vstd::prelude::*;
use vstd::string::*;

use crate::download;
use crate::download::{
    Action, CheckpointView, DownloadOutcome, Event, OutputStamp, PauseTransition, Phase, Removal,
    Snapshot, Transfer, TransferError, TransferState, TransferView,
};
use crate::paths;
use crate::progress::{DisplayState, Duration, ModelView};
use crate::signals;
use crate::signals::{ControlRequest, SignalEvent};

verus! {

/// The download once all of `events` have happened, the first one first.
pub open spec fn course(view: TransferView, events: Seq<Event>) -> TransferView
    decreases events.len(),
{
    if events.len() == 0 {
        view
    } else {
        download::next(course(view, events.drop_last()), events.last())
    }
}

/// A download that has yet to begin.
pub open spec fn beginning(url: Seq<char>, output: Seq<char>) -> TransferView {
    TransferView {
        phase: Phase::Locking,
        model: download::first_model(paths::shown_name(output)),
        signature: paths::signature_download(url, output),
        checkpoint: CheckpointView { resume: None, output: None },
    }
}

/// A transfer has ended well.
#[verifier::opaque]
pub open spec fn ended_well(events: Seq<Event>) -> bool {
    exists|i: int|
        0 <= i < events.len() && (#[trigger] events[i] matches Event::Ended { result, .. }
            && result is Ok)
}

/// A transfer has ended with `error`.
#[verifier::opaque]
pub open spec fn ended_with(events: Seq<Event>, error: TransferError) -> bool {
    exists|i: int|
        0 <= i < events.len() && (#[trigger] events[i] matches Event::Ended { result, .. }
            && result == Err::<(), TransferError>(error))
}

/// The output was seen to hold `size` bytes, and its first byte could be read.
#[verifier::opaque]
pub open spec fn inspected(events: Seq<Event>, size: u64) -> bool {
    exists|i: int|
        0 <= i < events.len() && (#[trigger] events[i] matches Event::Inspected {
            size: found,
            readable,
        } && found == Some(size) && readable)
}

/// The resume state of the output was removed, or was not there.
#[verifier::opaque]
pub open spec fn cleaned(events: Seq<Event>) -> bool {
    exists|i: int|
        0 <= i < events.len() && (#[trigger] events[i] matches Event::Cleaned { removal, .. }
            && removal != Removal::Failed)
}

/// The paused transfer was asked to give up.
#[verifier::opaque]
pub open spec fn interrupted_while_paused(events: Seq<Event>) -> bool {
    exists|i: int|
        0 <= i < events.len() && (#[trigger] events[i] matches Event::Polled { control }
            && control == Some(ControlRequest::Interrupt))
}

/// The phase is one of a paused transfer.
pub open spec fn is_paused(phase: Phase) -> bool {
    phase is Reconciling || phase is Refitting || phase is Suspending || phase is Stopping
}

/// The phase is one of a running transfer.
pub open spec fn is_running(phase: Phase) -> bool {
    phase is Announcing || phase is Abandoning || phase is Driving || phase is Redrawing
        || phase is Cancelling || phase is Ending || phase is Pausing
}

/// The outcome that the phase leads to, once it is known.
pub open spec fn settled(phase: Phase) -> Option<DownloadOutcome> {
    match phase {
        Phase::Stamping { outcome } => Some(outcome),
        Phase::Restoring { outcome } => Some(outcome),
        Phase::Finishing { outcome } => Some(outcome),
        Phase::Done { outcome } => Some(outcome),
        _ => None,
    }
}

/// The last row is due, or was drawn.
pub open spec fn is_over(phase: Phase) -> bool {
    phase is Finishing || phase is Done
}

/// What is shown fits the phase.
pub open spec fn is_consistent(view: TransferView) -> bool {
    &&& is_running(view.phase) ==> view.model.state == DisplayState::Active
    &&& is_paused(view.phase) ==> view.model.state == DisplayState::Paused
    &&& view.phase matches Phase::Cleaning { size } ==> size > 0
    &&& view.phase matches Phase::Finishing { outcome } ==> view.model.state
        == download::shown_as(outcome)
    &&& (is_over(view.phase) && settled(view.phase) == Some(DownloadOutcome::Completed)) ==> {
        &&& view.model.state == DisplayState::Success
        &&& view.model.downloaded > 0
        &&& view.model.total == Some(view.model.downloaded)
        &&& view.model.eta is None
    }
    &&& settled(view.phase) == Some(DownloadOutcome::SkippedDatabaseSignature) ==> view.signature
    &&& view.phase is Stamping || view.phase is Restoring ==> settled(view.phase) == Some(
        DownloadOutcome::Failed,
    ) || settled(view.phase) == Some(DownloadOutcome::SkippedDatabaseSignature)
    &&& view.phase is Restoring ==> view.checkpoint.resume is Some
}

/// Whatever happens, what is shown fits the phase, and the name of the file stays the same.
pub proof fn every_step_keeps_the_download_consistent(view: TransferView, event: Event)
    requires
        is_consistent(view),
    ensures
        is_consistent(download::next(view, event)),
        download::next(view, event).model.filename == view.model.filename,
        download::next(view, event).signature == view.signature,
{
}

/// In every course of a download what is shown fits the phase.
pub proof fn every_course_is_consistent(url: Seq<char>, output: Seq<char>, events: Seq<Event>)
    ensures
        is_consistent(course(beginning(url, output), events)),
        course(beginning(url, output), events).model.filename == paths::shown_name(output),
        course(beginning(url, output), events).signature == paths::signature_download(url, output),
    decreases events.len(),
{
    if events.len() > 0 {
        every_course_is_consistent(url, output, events.drop_last());
        every_step_keeps_the_download_consistent(
            course(beginning(url, output), events.drop_last()),
            events.last(),
        );
    }
}

/// Nothing changes a download that is done.
pub proof fn a_download_that_is_done_stays_done(view: TransferView, events: Seq<Event>)
    requires
        view.phase is Done,
    ensures
        course(view, events) == view,
    decreases events.len(),
{
    if events.len() > 0 {
        a_download_that_is_done_stays_done(view, events.drop_last());
    }
}

/// The last row is drawn once: after it is due, nothing else is ever due, and what it shows
/// does not change.
pub proof fn the_last_row_is_drawn_once(view: TransferView, events: Seq<Event>)
    requires
        view.phase is Finishing,
    ensures
        ({
            let after = course(view, events);
            &&& after.model == view.model
            &&& after.phase == view.phase || after.phase is Done
        }),
    decreases events.len(),
{
    if events.len() > 0 {
        the_last_row_is_drawn_once(view, events.drop_last());
    }
}

/// What the events so far must hold for the download to have completed, or to be about to.
spec fn completion_is_due(view: TransferView, events: Seq<Event>) -> bool {
    &&& view.phase is Inspecting || view.phase is Cleaning ==> ended_well(events)
    &&& view.phase matches Phase::Cleaning { size } ==> inspected(events, size)
    &&& settled(view.phase) == Some(DownloadOutcome::Completed) ==> ended_well(events)
        && inspected(events, view.model.downloaded) && cleaned(events)
}

/// What the events so far must hold for the download to have been skipped.
spec fn skip_is_due(view: TransferView, events: Seq<Event>) -> bool {
    settled(view.phase) == Some(DownloadOutcome::SkippedDatabaseSignature) ==> (ended_with(
        events,
        TransferError::HttpStatus { status: 404 },
    ) || ended_with(events, TransferError::HttpStatus { status: 410 }))
}

/// The paused transfer is to be given up once no control is left to read.
spec fn is_giving_up(phase: Phase) -> bool {
    ||| phase matches Phase::Reconciling { transition, .. } && transition
        == PauseTransition::Interrupt
    ||| phase matches Phase::Refitting { transition, .. } && transition
        == PauseTransition::Interrupt
}

/// What the events so far must hold for the download to have been interrupted, or to be about
/// to.
spec fn interruption_is_due(view: TransferView, events: Seq<Event>) -> bool {
    &&& settled(view.phase) == Some(DownloadOutcome::Interrupted) ==> (ended_with(
        events,
        TransferError::Cancelled,
    ) || interrupted_while_paused(events))
    &&& is_giving_up(view.phase) ==> interrupted_while_paused(events)
}

/// What the events so far must hold for the transfer to be paused.
spec fn pause_is_due(view: TransferView, events: Seq<Event>) -> bool {
    is_paused(view.phase) ==> ended_with(events, TransferError::Paused)
}

/// What earlier events hold, more events hold.
proof fn lemma_more_events(events: Seq<Event>, error: TransferError, size: u64)
    requires
        events.len() > 0,
    ensures
        ended_well(events.drop_last()) ==> ended_well(events),
        ended_with(events.drop_last(), error) ==> ended_with(events, error),
        inspected(events.drop_last(), size) ==> inspected(events, size),
        cleaned(events.drop_last()) ==> cleaned(events),
        interrupted_while_paused(events.drop_last()) ==> interrupted_while_paused(events),
{
    reveal(ended_well);
    reveal(ended_with);
    reveal(inspected);
    reveal(cleaned);
    reveal(interrupted_while_paused);
    let fewer = events.drop_last();
    assert forall|i: int| 0 <= i < fewer.len() implies #[trigger] fewer[i] == events[i] by {}
    if ended_well(fewer) {
        let i = choose|i: int|
            0 <= i < fewer.len() && (#[trigger] fewer[i] matches Event::Ended { result, .. }
                && result is Ok);
        assert(events[i] == fewer[i]);
    }
    if ended_with(fewer, error) {
        let i = choose|i: int|
            0 <= i < fewer.len() && (#[trigger] fewer[i] matches Event::Ended { result, .. }
                && result == Err::<(), TransferError>(error));
        assert(events[i] == fewer[i]);
    }
    if inspected(fewer, size) {
        let i = choose|i: int|
            0 <= i < fewer.len() && (#[trigger] fewer[i] matches Event::Inspected {
                size: found,
                readable,
            } && found == Some(size) && readable);
        assert(events[i] == fewer[i]);
    }
    if cleaned(fewer) {
        let i = choose|i: int|
            0 <= i < fewer.len() && (#[trigger] fewer[i] matches Event::Cleaned { removal, .. }
                && removal != Removal::Failed);
        assert(events[i] == fewer[i]);
    }
    if interrupted_while_paused(fewer) {
        let i = choose|i: int|
            0 <= i < fewer.len() && (#[trigger] fewer[i] matches Event::Polled { control }
                && control == Some(ControlRequest::Interrupt));
        assert(events[i] == fewer[i]);
    }
}

/// What the last event says is among what the events say.
proof fn lemma_last_event(events: Seq<Event>)
    requires
        events.len() > 0,
    ensures
        match events.last() {
            Event::Ended { result, .. } => match result {
                Ok(_) => ended_well(events),
                Err(error) => ended_with(events, error),
            },
            Event::Inspected { size, readable } => size is Some && readable ==> inspected(
                events,
                size->0,
            ),
            Event::Cleaned { removal, .. } => removal != Removal::Failed ==> cleaned(events),
            Event::Polled { control } => control == Some(ControlRequest::Interrupt)
                ==> interrupted_while_paused(events),
            _ => true,
        },
{
    reveal(ended_well);
    reveal(ended_with);
    reveal(inspected);
    reveal(cleaned);
    reveal(interrupted_while_paused);
    assert(events[events.len() - 1] == events.last());
}

/// The steps that lead to completion.
proof fn lemma_steps_to_completion(before: TransferView, event: Event)
    ensures
        ({
            let after = download::next(before, event);
            &&& after.phase is Inspecting ==> before.phase is Inspecting || (
            event matches Event::Ended { result, .. } && result is Ok)
            &&& after.phase matches Phase::Cleaning { size } ==> before.phase == after.phase || (
            before.phase is Inspecting && (event matches Event::Inspected { size: seen, readable }
                && seen == Some(size) && readable))
            &&& settled(after.phase) == Some(DownloadOutcome::Completed) ==> (settled(before.phase)
                == Some(DownloadOutcome::Completed) && after.model.downloaded
                == before.model.downloaded) || (before.phase == (Phase::Cleaning {
                size: after.model.downloaded,
            }) && (event matches Event::Cleaned { removal, .. } && removal != Removal::Failed))
        }),
{
}

/// Every course completes only as its events allow.
proof fn lemma_completion_is_due(url: Seq<char>, output: Seq<char>, events: Seq<Event>)
    ensures
        completion_is_due(course(beginning(url, output), events), events),
    decreases events.len(),
{
    if events.len() > 0 {
        let before = course(beginning(url, output), events.drop_last());
        let after = course(beginning(url, output), events);
        lemma_completion_is_due(url, output, events.drop_last());
        lemma_step_to_completion(before, after, events);
    }
}

/// One more event leads to completion only as the events allow.
proof fn lemma_step_to_completion(before: TransferView, after: TransferView, events: Seq<Event>)
    requires
        events.len() > 0,
        completion_is_due(before, events.drop_last()),
        after == download::next(before, events.last()),
    ensures
        completion_is_due(after, events),
{
    lemma_steps_to_completion(before, events.last());
    lemma_last_event(events);
    lemma_more_events(events, TransferError::Other, before.model.downloaded);
    if let Phase::Cleaning { size } = before.phase {
        lemma_more_events(events, TransferError::Other, size);
    }
}

/// The steps that lead to a skip.
proof fn lemma_steps_to_skip(before: TransferView, event: Event)
    ensures
        ({
            let after = download::next(before, event);
            settled(after.phase) == Some(DownloadOutcome::SkippedDatabaseSignature) ==> settled(
                before.phase,
            ) == Some(DownloadOutcome::SkippedDatabaseSignature) || (
            event matches Event::Ended { result, .. } && (result == Err::<(), TransferError>(
                TransferError::HttpStatus { status: 404 },
            ) || result == Err::<(), TransferError>(TransferError::HttpStatus { status: 410 })))
        }),
{
}

/// One more event leads to a skip only as the events allow.
proof fn lemma_step_to_skip(before: TransferView, after: TransferView, events: Seq<Event>)
    requires
        events.len() > 0,
        skip_is_due(before, events.drop_last()),
        after == download::next(before, events.last()),
    ensures
        skip_is_due(after, events),
{
    lemma_steps_to_skip(before, events.last());
    lemma_last_event(events);
    lemma_more_events(events, TransferError::HttpStatus { status: 404 }, 0);
    lemma_more_events(events, TransferError::HttpStatus { status: 410 }, 0);
}

/// Every course comes to a skip only as its events allow.
proof fn lemma_skip_is_due(url: Seq<char>, output: Seq<char>, events: Seq<Event>)
    ensures
        skip_is_due(course(beginning(url, output), events), events),
    decreases events.len(),
{
    if events.len() > 0 {
        lemma_skip_is_due(url, output, events.drop_last());
        lemma_step_to_skip(
            course(beginning(url, output), events.drop_last()),
            course(beginning(url, output), events),
            events,
        );
    }
}

/// The steps that lead to an interruption.
proof fn lemma_steps_to_interruption(before: TransferView, event: Event)
    ensures
        ({
            let after = download::next(before, event);
            &&& settled(after.phase) == Some(DownloadOutcome::Interrupted) ==> settled(before.phase)
                == Some(DownloadOutcome::Interrupted) || is_giving_up(before.phase) || (
            event matches Event::Ended { result, .. } && result == Err::<(), TransferError>(
                TransferError::Cancelled,
            ))
            &&& is_giving_up(after.phase) ==> is_giving_up(before.phase) || (
            event matches Event::Polled { control } && control == Some(ControlRequest::Interrupt))
        }),
{
}

/// One more event leads to an interruption only as the events allow.
proof fn lemma_step_to_interruption(before: TransferView, after: TransferView, events: Seq<Event>)
    requires
        events.len() > 0,
        interruption_is_due(before, events.drop_last()),
        after == download::next(before, events.last()),
    ensures
        interruption_is_due(after, events),
{
    lemma_steps_to_interruption(before, events.last());
    lemma_last_event(events);
    lemma_more_events(events, TransferError::Cancelled, 0);
}

/// Every course comes to an interruption only as its events allow.
proof fn lemma_interruption_is_due(url: Seq<char>, output: Seq<char>, events: Seq<Event>)
    ensures
        interruption_is_due(course(beginning(url, output), events), events),
    decreases events.len(),
{
    if events.len() > 0 {
        lemma_interruption_is_due(url, output, events.drop_last());
        lemma_step_to_interruption(
            course(beginning(url, output), events.drop_last()),
            course(beginning(url, output), events),
            events,
        );
    }
}

/// The steps that lead to a pause.
proof fn lemma_steps_to_pause(before: TransferView, event: Event)
    ensures
        ({
            let after = download::next(before, event);
            is_paused(after.phase) ==> is_paused(before.phase) || (
            event matches Event::Ended { result, .. } && result == Err::<(), TransferError>(
                TransferError::Paused,
            ))
        }),
{
}

/// One more event leads to a pause only as the events allow.
proof fn lemma_step_to_pause(before: TransferView, after: TransferView, events: Seq<Event>)
    requires
        events.len() > 0,
        pause_is_due(before, events.drop_last()),
        after == download::next(before, events.last()),
    ensures
        pause_is_due(after, events),
{
    lemma_steps_to_pause(before, events.last());
    lemma_last_event(events);
    lemma_more_events(events, TransferError::Paused, 0);
}

/// Every course comes to a pause only as its events allow.
proof fn lemma_pause_is_due(url: Seq<char>, output: Seq<char>, events: Seq<Event>)
    ensures
        pause_is_due(course(beginning(url, output), events), events),
    decreases events.len(),
{
    if events.len() > 0 {
        lemma_pause_is_due(url, output, events.drop_last());
        lemma_step_to_pause(
            course(beginning(url, output), events.drop_last()),
            course(beginning(url, output), events),
            events,
        );
    }
}

/// A download completes only after its transfer ended well, its output was seen to hold the
/// bytes that are shown, at least one of them readable, and no resume state was left.
pub proof fn only_a_good_output_completes(url: Seq<char>, output: Seq<char>, events: Seq<Event>)
    requires
        course(beginning(url, output), events).phase == (Phase::Done {
            outcome: DownloadOutcome::Completed,
        }),
    ensures
        ({
            let size = course(beginning(url, output), events).model.downloaded;
            &&& size > 0
            &&& ended_well(events)
            &&& inspected(events, size)
            &&& cleaned(events)
        }),
{
    lemma_completion_is_due(url, output, events);
    every_course_is_consistent(url, output, events);
}

/// A download is skipped only if it is that of a database signature, by the names that are
/// asked for and written, and the server does not have it.
pub proof fn only_a_missing_database_signature_is_skipped(
    url: Seq<char>,
    output: Seq<char>,
    events: Seq<Event>,
)
    requires
        course(beginning(url, output), events).phase == (Phase::Done {
            outcome: DownloadOutcome::SkippedDatabaseSignature,
        }),
    ensures
        paths::signature_download(url, output),
        ended_with(events, TransferError::HttpStatus { status: 404 }) || ended_with(
            events,
            TransferError::HttpStatus { status: 410 },
        ),
{
    lemma_skip_is_due(url, output, events);
    every_course_is_consistent(url, output, events);
}

/// A download is interrupted only if its transfer was cancelled or, while it was paused, asked
/// to give up.
pub proof fn only_a_cancelled_transfer_is_interrupted(
    url: Seq<char>,
    output: Seq<char>,
    events: Seq<Event>,
)
    requires
        course(beginning(url, output), events).phase == (Phase::Done {
            outcome: DownloadOutcome::Interrupted,
        }),
    ensures
        ended_with(events, TransferError::Cancelled) || interrupted_while_paused(events),
{
    lemma_interruption_is_due(url, output, events);
}

/// The process is stopped only after the transfer was paused with what can be resumed saved.
pub proof fn the_process_stops_only_after_a_checkpoint(
    url: Seq<char>,
    output: Seq<char>,
    events: Seq<Event>,
)
    requires
        course(beginning(url, output), events).phase is Stopping,
    ensures
        ended_with(events, TransferError::Paused),
        course(beginning(url, output), events).model.state == DisplayState::Paused,
{
    lemma_pause_is_due(url, output, events);
    every_course_is_consistent(url, output, events);
}

/// A control that comes when the transfer has already ended does not change what comes of it.
pub proof fn a_control_after_the_end_is_ignored(
    view: TransferView,
    request: ControlRequest,
    snapshot: Snapshot,
    elapsed: Duration,
)
    requires
        view.phase == (Phase::Driving { controls: true }),
        download::has_ended(snapshot.state),
    ensures
        download::next(view, Event::Control { request, snapshot, elapsed }).phase
            == Phase::Ending,
{
}

/// Before a transfer starts again after a pause, what can be resumed is saved anew, and once it
/// has started, it is drawn at once.
pub proof fn a_continued_transfer_is_redrawn_at_once(
    view: TransferView,
    resume: Option<Vec<u8>>,
    output: Option<OutputStamp>,
)
    requires
        view.phase is Stopping,
    ensures
        ({
            let continued = download::next(view, Event::Continued { stopped: true });
            let saved = download::next(continued, Event::Saved { resume, output });
            let started = download::next(saved, Event::Started { running: true });
            &&& download::next_action(continued.phase) == Action::SaveCheckpoint
            &&& download::next_action(saved.phase) == Action::StartTransfer
            &&& started.phase == (Phase::Announcing { force: true })
            &&& started.model.state == DisplayState::Active
        }),
{
}

/// A signal that asks a process to end cancels a running transfer.
pub proof fn a_signal_to_end_cancels_the_transfer(
    view: TransferView,
    signal: SignalEvent,
    snapshot: Snapshot,
    elapsed: Duration,
)
    requires
        view.phase == (Phase::Driving { controls: true }),
        !download::has_ended(snapshot.state),
        signal == SignalEvent::Interrupt || signal == SignalEvent::Terminate || signal
            == SignalEvent::Hangup,
    ensures
        ({
            let after = download::next(
                view,
                Event::Control { request: signals::requested(signal), snapshot, elapsed },
            );
            download::next_action(after.phase) == Action::CancelAndWait
        }),
{
}

/// A terminal that changes its size is drawn on at once.
pub proof fn a_resize_is_redrawn_at_once(
    view: TransferView,
    snapshot: Snapshot,
    elapsed: Duration,
)
    requires
        view.phase == (Phase::Driving { controls: true }),
        !download::has_ended(snapshot.state),
    ensures
        ({
            let after = download::next(
                view,
                Event::Control {
                    request: signals::requested(SignalEvent::Resize),
                    snapshot,
                    elapsed,
                },
            );
            download::next_action(after.phase) == (Action::Draw { force: true })
        }),
{
}

/// The phase waits for the end of a transfer, and a transfer that ends with `error` there has
/// failed: it was neither cancelled nor paused as asked.
pub open spec fn fails_with(phase: Phase, error: TransferError) -> bool {
    &&& phase is Ending || phase is Cancelling || phase is Pausing
    &&& error != TransferError::Cancelled
    &&& phase is Pausing ==> error != TransferError::Paused
}

/// What was saved stays saved until something else is saved.
pub proof fn a_checkpoint_stays_until_the_next(view: TransferView, events: Seq<Event>)
    requires
        forall|i: int| 0 <= i < events.len() ==> !((#[trigger] events[i]) is Saved),
    ensures
        course(view, events).checkpoint == view.checkpoint,
    decreases events.len(),
{
    if events.len() > 0 {
        let fewer = events.drop_last();
        assert forall|i: int| 0 <= i < fewer.len() implies !((#[trigger] fewer[i]) is Saved) by {
            assert(fewer[i] == events[i]);
        }
        a_checkpoint_stays_until_the_next(view, fewer);
        assert(!(events[events.len() - 1] is Saved));
    }
}

/// What could be resumed before a transfer is brought back, byte for byte, after the transfer
/// has failed and left the output as it was, whatever happened in between. If the output is
/// another one, or nothing could be resumed, nothing is brought back. Either way the failure is
/// shown.
pub proof fn a_failed_transfer_brings_back_its_checkpoint(
    view: TransferView,
    resume: Option<Vec<u8>>,
    output: Option<OutputStamp>,
    events: Seq<Event>,
    error: TransferError,
    snapshot: Snapshot,
    elapsed: Duration,
    left: Option<OutputStamp>,
)
    requires
        view.phase is Saving,
        forall|i: int| 0 <= i < events.len() ==> !((#[trigger] events[i]) is Saved),
        fails_with(
            course(download::next(view, Event::Saved { resume, output }), events).phase,
            error,
        ),
    ensures
        ({
            let saved = download::next(view, Event::Saved { resume, output });
            let running = course(saved, events);
            let ended = download::next(
                running,
                Event::Ended { result: Err(error), snapshot, elapsed },
            );
            let compared = download::next(ended, Event::Stamped { output: left });
            let last = Phase::Finishing {
                outcome: download::failure_outcome(error, view.signature),
            };
            &&& download::next_action(ended.phase) == Action::StampOutput
            &&& if left == output && resume is Some {
                &&& download::next_action(compared.phase) == Action::RestoreCheckpoint
                &&& compared.checkpoint.resume == Some(resume->0@)
                &&& download::next(compared, Event::Restored).phase == last
            } else {
                compared.phase == last
            }
        }),
{
    let saved = download::next(view, Event::Saved { resume, output });
    a_checkpoint_stays_until_the_next(saved, events);
    lemma_signature_stays(saved, events);
}

/// Nothing that happens changes whether the download is that of a database signature.
proof fn lemma_signature_stays(view: TransferView, events: Seq<Event>)
    ensures
        course(view, events).signature == view.signature,
    decreases events.len(),
{
    if events.len() > 0 {
        lemma_signature_stays(view, events.drop_last());
    }
}

/// Resume state is removed only once a transfer has ended well and its output was seen to be
/// good: a transfer that was cancelled or failed leaves it.
pub proof fn resume_state_is_removed_only_beside_a_good_output(
    url: Seq<char>,
    output: Seq<char>,
    events: Seq<Event>,
)
    requires
        download::next_action(course(beginning(url, output), events).phase)
            == Action::RemoveSidecar,
    ensures
        ended_well(events),
        exists|size: u64| size > 0 && #[trigger] inspected(events, size),
{
    lemma_completion_is_due(url, output, events);
    every_course_is_consistent(url, output, events);
}

/// What a paused transfer goes on with once `requests` have been read, the first one first.
pub open spec fn all_reconciled(requests: Seq<ControlRequest>) -> PauseTransition
    decreases requests.len(),
{
    if requests.len() == 0 {
        PauseTransition::Stop
    } else {
        download::reconciled(all_reconciled(requests.drop_last()), requests.last())
    }
}

/// The last of `requests` that asks to stop or to go on.
pub open spec fn last_choice(requests: Seq<ControlRequest>) -> Option<ControlRequest>
    decreases requests.len(),
{
    if requests.len() == 0 {
        None
    } else if requests.last() == ControlRequest::Suspend || requests.last()
        == ControlRequest::Continue {
        Some(requests.last())
    } else {
        last_choice(requests.drop_last())
    }
}

/// A request to give up that was made while the transfer was paused outweighs all others;
/// else the last request to stop or to go on decides, and without any the process stops.
pub proof fn an_interrupt_outweighs_all_else(requests: Seq<ControlRequest>)
    ensures
        all_reconciled(requests) == (if requests.contains(ControlRequest::Interrupt) {
            PauseTransition::Interrupt
        } else if last_choice(requests) == Some(ControlRequest::Continue) {
            PauseTransition::Resume
        } else {
            PauseTransition::Stop
        }),
    decreases requests.len(),
{
    if requests.len() > 0 {
        let fewer = requests.drop_last();
        an_interrupt_outweighs_all_else(fewer);
        assert(requests =~= fewer.push(requests.last()));
        assert(requests.contains(ControlRequest::Interrupt) <==> fewer.contains(
            ControlRequest::Interrupt,
        ) || requests.last() == ControlRequest::Interrupt) by {
            if fewer.contains(ControlRequest::Interrupt) {
                let i = fewer.index_of(ControlRequest::Interrupt);
                assert(requests[i] == ControlRequest::Interrupt);
            }
            if requests.contains(ControlRequest::Interrupt) {
                let i = requests.index_of(ControlRequest::Interrupt);
                assert(i < fewer.len() ==> fewer[i] == ControlRequest::Interrupt);
            }
            assert(requests[requests.len() - 1] == requests.last());
        }
    }
}

/// Reading controls while the transfer is paused takes it from stopping to what they come to
/// in all, a redraw after each that asks for one aside.
pub proof fn reading_controls_reconciles_them_all(
    view: TransferView,
    shown: bool,
    requests: Seq<ControlRequest>,
)
    requires
        view.phase == (Phase::Reconciling {
            shown,
            yielded: false,
            transition: PauseTransition::Stop,
        }),
        requests.len() > 0,
    ensures
        ({
            let after = course(view, read_controls(requests));
            after == (TransferView {
                phase: Phase::Reconciling {
                    shown,
                    yielded: true,
                    transition: all_reconciled(requests),
                },
                ..view
            })
        }),
    decreases requests.len(),
{
    let fewer = requests.drop_last();
    let before = course(view, read_controls(fewer));
    let polled = Event::Polled { control: Some(requests.last()) };
    let drawn = Event::Drawn { drawn: true };
    if fewer.len() > 0 {
        reading_controls_reconciles_them_all(view, shown, fewer);
    } else {
        assert(read_controls(fewer) =~= seq![]);
        assert(all_reconciled(fewer) == PauseTransition::Stop);
    }
    assert(all_reconciled(requests) == download::reconciled(
        all_reconciled(fewer),
        requests.last(),
    ));
    let events = read_controls(requests);
    assert(events.drop_last() =~= read_controls(fewer).push(polled));
    assert(events.drop_last().drop_last() =~= read_controls(fewer));
    assert(events.drop_last().last() == polled);
    assert(events.last() == drawn);
    assert(course(view, events.drop_last()) == download::next(before, polled));
}

/// The events of reading `requests` one by one, with a drawing after each; a drawing that
/// nothing waits for changes nothing.
pub open spec fn read_controls(requests: Seq<ControlRequest>) -> Seq<Event>
    decreases requests.len(),
{
    if requests.len() == 0 {
        seq![]
    } else {
        read_controls(requests.drop_last()).push(
            Event::Polled { control: Some(requests.last()) },
        ).push(Event::Drawn { drawn: true })
    }
}

/// A transfer has run and is waited for, whether it ended by itself, was cancelled or was to be
/// paused.
pub open spec fn awaits_end(phase: Phase) -> bool {
    phase is Ending || phase is Cancelling || phase is Pausing
}

/// A good output completes the download, whether its resume state was removed or was not there:
/// a transfer that ended well, an output that holds bytes and can be read, no resume state left
/// and a last row that is drawn lead to completion, with all bytes of the output shown.
pub proof fn a_good_output_completes(
    view: TransferView,
    snapshot: Snapshot,
    ended: Duration,
    size: u64,
    removal: Removal,
    average: Option<u64>,
    elapsed: Duration,
)
    requires
        awaits_end(view.phase),
        size > 0,
        removal == Removal::Removed || removal == Removal::Missing,
    ensures
        ({
            let inspecting = download::next(
                view,
                Event::Ended { result: Ok(()), snapshot, elapsed: ended },
            );
            let cleaning = download::next(
                inspecting,
                Event::Inspected { size: Some(size), readable: true },
            );
            let finishing = download::next(
                cleaning,
                Event::Cleaned { removal, average, elapsed },
            );
            let done = download::next(finishing, Event::Drawn { drawn: true });
            &&& download::next_action(inspecting.phase) == Action::InspectOutput
            &&& download::next_action(cleaning.phase) == Action::RemoveSidecar
            &&& download::next_action(finishing.phase) == Action::Finish
            &&& finishing.model.state == DisplayState::Success
            &&& finishing.model.filename == view.model.filename
            &&& finishing.model.downloaded == size
            &&& finishing.model.total == Some(size)
            &&& finishing.model.elapsed == elapsed
            &&& finishing.model.eta is None
            &&& average is Some ==> finishing.model.bytes_per_second == average
            &&& average is None ==> finishing.model.bytes_per_second
                == inspecting.model.bytes_per_second
            &&& done.model == finishing.model
            &&& download::next_action(done.phase) == (Action::Return {
                outcome: DownloadOutcome::Completed,
            })
        }),
{
}

/// An output that cannot be opened or read, that holds nothing, or whose resume state cannot be
/// removed fails the download, though its transfer ended well.
pub proof fn an_output_that_is_not_good_fails(
    view: TransferView,
    snapshot: Snapshot,
    ended: Duration,
    size: Option<u64>,
    readable: bool,
    average: Option<u64>,
    elapsed: Duration,
    drawn: bool,
)
    requires
        awaits_end(view.phase),
    ensures
        ({
            let inspecting = download::next(
                view,
                Event::Ended { result: Ok(()), snapshot, elapsed: ended },
            );
            let inspected = download::next(inspecting, Event::Inspected { size, readable });
            let finishing = if size is Some && size->0 > 0 && readable {
                download::next(
                    inspected,
                    Event::Cleaned { removal: Removal::Failed, average, elapsed },
                )
            } else {
                inspected
            };
            let done = download::next(finishing, Event::Drawn { drawn });
            &&& download::next_action(finishing.phase) == Action::Finish
            &&& finishing.model.state == DisplayState::Error
            &&& download::next_action(done.phase) == (Action::Return {
                outcome: DownloadOutcome::Failed,
            })
        }),
{
}

/// A row that cannot be drawn at the very end fails the download, whatever came of it before;
/// one that is drawn leaves what came of it.
pub proof fn only_a_last_row_that_is_drawn_keeps_the_outcome(
    view: TransferView,
    outcome: DownloadOutcome,
    drawn: bool,
)
    requires
        view.phase == (Phase::Finishing { outcome }),
    ensures
        download::next_action(download::next(view, Event::Drawn { drawn }).phase) == (
        Action::Return {
            outcome: if drawn {
                outcome
            } else {
                DownloadOutcome::Failed
            },
        }),
{
}

/// A transfer that was cancelled ends the download as interrupted, and its resume state is left
/// as it is.
pub proof fn a_cancelled_transfer_interrupts_the_download(
    view: TransferView,
    snapshot: Snapshot,
    elapsed: Duration,
)
    requires
        awaits_end(view.phase),
    ensures
        ({
            let ended = download::next(
                view,
                Event::Ended { result: Err(TransferError::Cancelled), snapshot, elapsed },
            );
            let done = download::next(ended, Event::Drawn { drawn: true });
            &&& download::next_action(ended.phase) == Action::Finish
            &&& ended.model.state == DisplayState::Interrupted
            &&& download::next_action(done.phase) == (Action::Return {
                outcome: DownloadOutcome::Interrupted,
            })
        }),
{
}

/// A transfer that failed, with nothing to bring back, fails the download, but for one that the
/// server answered with not found or gone: that of a database signature is skipped.
pub proof fn a_failed_transfer_fails_the_download(
    view: TransferView,
    error: TransferError,
    snapshot: Snapshot,
    elapsed: Duration,
    left: Option<OutputStamp>,
)
    requires
        fails_with(view.phase, error),
        view.checkpoint.resume is None || left != view.checkpoint.output,
    ensures
        ({
            let ended = download::next(
                view,
                Event::Ended { result: Err(error), snapshot, elapsed },
            );
            let finishing = download::next(ended, Event::Stamped { output: left });
            let done = download::next(finishing, Event::Drawn { drawn: true });
            let missing = error == (TransferError::HttpStatus { status: 404 }) || error == (
            TransferError::HttpStatus { status: 410 });
            &&& download::next_action(finishing.phase) == Action::Finish
            &&& if missing && view.signature {
                &&& finishing.model.state == DisplayState::Skipped
                &&& download::next_action(done.phase) == (Action::Return {
                    outcome: DownloadOutcome::SkippedDatabaseSignature,
                })
            } else {
                &&& finishing.model.state == DisplayState::Error
                &&& download::next_action(done.phase) == (Action::Return {
                    outcome: DownloadOutcome::Failed,
                })
            }
        }),
{
}

/// The figures that a model shows are those of the snapshot.
pub open spec fn shows(model: ModelView, snapshot: Snapshot, elapsed: Duration) -> bool {
    &&& model.downloaded == snapshot.downloaded
    &&& model.total == snapshot.total_size
    &&& model.bytes_per_second == snapshot.bytes_per_second
    &&& model.eta == snapshot.eta
    &&& model.elapsed == elapsed
}

/// The transfer can still go on.
pub open spec fn can_go_on(snapshot: Snapshot) -> bool {
    snapshot.state == TransferState::Pending || snapshot.state == TransferState::Downloading
}

/// What a running transfer reports is shown, not at once but when a row is due. Then news are
/// awaited again as before, or, once the transfer has ended, its end; and a row that cannot be
/// drawn cancels it.
pub proof fn reported_progress_is_shown(
    view: TransferView,
    controls: bool,
    snapshot: Snapshot,
    elapsed: Duration,
)
    requires
        view.phase == (Phase::Driving { controls }),
    ensures
        ({
            let reported = download::next(view, Event::Progress { snapshot, elapsed });
            let drawn = download::next(reported, Event::Drawn { drawn: true });
            let failed = download::next(reported, Event::Drawn { drawn: false });
            &&& shows(reported.model, snapshot, elapsed)
            &&& reported.model.state == view.model.state
            &&& reported.model.filename == view.model.filename
            &&& download::next_action(reported.phase) == (Action::Draw { force: false })
            &&& drawn.model == reported.model
            &&& download::next_action(drawn.phase) == (if can_go_on(snapshot) {
                Action::AwaitNews { controls }
            } else {
                Action::Wait
            })
            &&& download::next_action(failed.phase) == Action::CancelAndWait
        }),
{
}

/// What a running transfer is asked for is done: an interrupt cancels it, a suspension pauses
/// it, and all else redraws its row at once, after which news are awaited again. Either way
/// what it last reported is shown. One that has already ended is only waited for.
pub proof fn what_is_asked_for_is_done(
    view: TransferView,
    signal: SignalEvent,
    snapshot: Snapshot,
    elapsed: Duration,
)
    requires
        view.phase == (Phase::Driving { controls: true }),
    ensures
        ({
            let asked = download::next(
                view,
                Event::Control { request: signals::requested(signal), snapshot, elapsed },
            );
            let drawn = download::next(asked, Event::Drawn { drawn: true });
            let failed = download::next(asked, Event::Drawn { drawn: false });
            &&& shows(asked.model, snapshot, elapsed)
            &&& asked.model.state == view.model.state
            &&& !can_go_on(snapshot) ==> download::next_action(asked.phase) == Action::Wait
            &&& can_go_on(snapshot) ==> match signal {
                SignalEvent::Interrupt | SignalEvent::Terminate | SignalEvent::Hangup =>
                    download::next_action(asked.phase) == Action::CancelAndWait,
                SignalEvent::Suspend => download::next_action(asked.phase)
                    == Action::PauseAndWait,
                SignalEvent::Continue | SignalEvent::Resize => {
                    &&& download::next_action(asked.phase) == (Action::Draw { force: true })
                    &&& download::next_action(drawn.phase) == (Action::AwaitNews {
                        controls: true,
                    })
                    &&& download::next_action(failed.phase) == Action::CancelAndWait
                },
            }
        }),
{
}

/// A transfer that reports nothing more is waited for, and one that is asked for nothing more
/// goes on without controls.
pub proof fn what_is_closed_is_not_awaited(view: TransferView, controls: bool)
    requires
        view.phase == (Phase::Driving { controls }),
    ensures
        download::next_action(download::next(view, Event::ProgressClosed).phase) == Action::Wait,
        download::next_action(download::next(view, Event::ControlsClosed).phase) == (
        Action::AwaitNews { controls: false }),
        download::next(view, Event::ProgressClosed).model == view.model,
        download::next(view, Event::ControlsClosed).model == view.model,
{
}

/// A download whose lock is taken saves what can be resumed, starts its transfer, draws its row
/// without force and then awaits news of it.
pub proof fn a_download_starts_behind_its_lock(
    url: Seq<char>,
    output: Seq<char>,
    resume: Option<Vec<u8>>,
    stamp: Option<OutputStamp>,
)
    ensures
        ({
            let first = beginning(url, output);
            let locked = download::next(first, Event::Locked { acquired: true });
            let saved = download::next(locked, Event::Saved { resume, output: stamp });
            let started = download::next(saved, Event::Started { running: true });
            let drawn = download::next(started, Event::Drawn { drawn: true });
            &&& download::next_action(first.phase) == Action::AcquireLock
            &&& download::next_action(locked.phase) == Action::SaveCheckpoint
            &&& download::next_action(saved.phase) == Action::StartTransfer
            &&& download::next_action(started.phase) == (Action::Draw { force: false })
            &&& download::next_action(drawn.phase) == (Action::AwaitNews { controls: true })
            &&& drawn.model.state == DisplayState::Active
            &&& drawn.model.filename == paths::shown_name(output)
            &&& drawn.model.downloaded == 0
            &&& drawn.model.total is None
            &&& drawn.model.bytes_per_second is None
            &&& drawn.model.eta is None
            &&& drawn.model.elapsed.nanoseconds() == 0
        }),
{
}

/// A download whose lock or whose transfer cannot be had, and one whose process cannot be
/// stopped, shows an error and fails.
pub proof fn what_cannot_be_had_fails_the_download(view: TransferView, event: Event)
    requires
        (view.phase is Locking && event == (Event::Locked { acquired: false })) || (
        view.phase is Starting && event == (Event::Started { running: false })) || (
        view.phase is Stopping && event == (Event::Continued { stopped: false })) || (
        view.phase is Suspending && event == (Event::Drawn { drawn: false })),
    ensures
        ({
            let finishing = download::next(view, event);
            let done = download::next(finishing, Event::Drawn { drawn: true });
            &&& download::next_action(finishing.phase) == Action::Finish
            &&& finishing.model.state == DisplayState::Error
            &&& download::next_action(done.phase) == (Action::Return {
                outcome: DownloadOutcome::Failed,
            })
        }),
{
}

/// A transfer whose first row cannot be drawn is cancelled, and then the download fails without
/// another row, whatever came of the transfer.
pub proof fn a_first_row_that_fails_abandons_the_transfer(
    view: TransferView,
    force: bool,
    result: Result<(), TransferError>,
    snapshot: Snapshot,
    elapsed: Duration,
)
    requires
        view.phase == (Phase::Announcing { force }),
    ensures
        ({
            let abandoned = download::next(view, Event::Drawn { drawn: false });
            let done = download::next(abandoned, Event::Ended { result, snapshot, elapsed });
            &&& download::next_action(view.phase) == (Action::Draw { force })
            &&& download::next_action(abandoned.phase) == Action::CancelAndWait
            &&& download::next_action(done.phase) == (Action::Return {
                outcome: DownloadOutcome::Failed,
            })
        }),
{
}

/// A transfer that was paused is shown as paused with what it last reported. Where no control
/// comes in the meantime its row is left standing, and only then, after another look for
/// controls, the process stops.
pub proof fn a_paused_transfer_stops_the_process(
    view: TransferView,
    snapshot: Snapshot,
    elapsed: Duration,
)
    requires
        view.phase is Pausing,
    ensures
        ({
            let paused = download::next(
                view,
                Event::Ended { result: Err(TransferError::Paused), snapshot, elapsed },
            );
            let left = download::next(paused, Event::Polled { control: None });
            let standing = download::next(left, Event::Drawn { drawn: true });
            let stopping = download::next(standing, Event::Polled { control: None });
            &&& shows(paused.model, snapshot, elapsed)
            &&& paused.model.state == DisplayState::Paused
            &&& download::next_action(paused.phase) == (Action::PollControl { yield_first: true })
            &&& left.model == paused.model
            &&& download::next_action(left.phase) == Action::Suspend
            &&& download::next_action(standing.phase) == (Action::PollControl {
                yield_first: true,
            })
            &&& download::next_action(stopping.phase) == Action::StopProcess
            &&& stopping.model == paused.model
        }),
{
}

/// Once no control is left to read, a paused transfer does what the controls came to: it is
/// given up, starts again behind what can be resumed now, or stops the process.
pub proof fn what_controls_came_to_is_done(
    view: TransferView,
    shown: bool,
    yielded: bool,
    transition: PauseTransition,
)
    requires
        view.phase == (Phase::Reconciling { shown, yielded, transition }),
    ensures
        ({
            let after = download::next(view, Event::Polled { control: None });
            let done = download::next(after, Event::Drawn { drawn: true });
            match transition {
                PauseTransition::Interrupt => {
                    &&& download::next_action(after.phase) == Action::Finish
                    &&& after.model.state == DisplayState::Interrupted
                    &&& download::next_action(done.phase) == (Action::Return {
                        outcome: DownloadOutcome::Interrupted,
                    })
                },
                PauseTransition::Resume => {
                    &&& download::next_action(after.phase) == Action::SaveCheckpoint
                    &&& after.phase == (Phase::Saving { first: false })
                    &&& after.model == view.model
                },
                PauseTransition::Stop => download::next_action(after.phase) == (if shown {
                    Action::StopProcess
                } else {
                    Action::Suspend
                }),
            }
        }),
{
}

/// A paused transfer whose terminal changes its size is redrawn at once, unless it is given up,
/// and a row that cannot be drawn fails it.
pub proof fn a_resize_of_a_paused_transfer_is_redrawn(
    view: TransferView,
    shown: bool,
    yielded: bool,
    transition: PauseTransition,
)
    requires
        view.phase == (Phase::Reconciling { shown, yielded, transition }),
        transition != PauseTransition::Interrupt,
    ensures
        ({
            let resize = Event::Polled {
                control: Some(signals::requested(SignalEvent::Resize)),
            };
            let asked = download::next(view, resize);
            let drawn = download::next(asked, Event::Drawn { drawn: true });
            let failed = download::next(asked, Event::Drawn { drawn: false });
            &&& download::next_action(asked.phase) == (Action::Draw { force: true })
            &&& drawn.phase == (Phase::Reconciling { shown, yielded: true, transition })
            &&& download::next_action(drawn.phase) == (Action::PollControl { yield_first: false })
            &&& download::next_action(failed.phase) == Action::StampOutput
            &&& settled(failed.phase) == Some(DownloadOutcome::Failed)
        }),
{
}

/// The event tells what came of the action.
pub open spec fn answers(action: Action, event: Event) -> bool {
    match action {
        Action::AcquireLock => event is Locked,
        Action::SaveCheckpoint => event is Saved,
        Action::StartTransfer => event is Started,
        Action::Draw { .. } | Action::Suspend | Action::Finish => event is Drawn,
        Action::AwaitNews { controls } => event is Progress || event is ProgressClosed
            || event is ControlsClosed || (controls && event is Control),
        Action::CancelAndWait | Action::Wait | Action::PauseAndWait => event is Ended,
        Action::PollControl { .. } => event is Polled,
        Action::StopProcess => event is Continued,
        Action::InspectOutput => event is Inspected,
        Action::RemoveSidecar => event is Cleaned,
        Action::StampOutput => event is Stamped,
        Action::RestoreCheckpoint => event is Restored,
        Action::Return { .. } => false,
    }
}

/// Only what came of the action that is due changes a download, and it always takes it on, but
/// for controls that are closed twice and for controls that change nothing about a pause.
pub proof fn only_what_is_awaited_changes_a_download(view: TransferView, event: Event)
    ensures
        !answers(download::next_action(view.phase), event) ==> download::next(view, event) == view,
        answers(download::next_action(view.phase), event) && !(event is ControlsClosed) && !(
        event is Polled) ==> download::next(view, event).phase != view.phase,
{
}

/// How a download ended shows in its row: no two outcomes are shown alike, and none is shown
/// like a download that goes on.
pub proof fn outcomes_are_shown_apart(first: DownloadOutcome, second: DownloadOutcome)
    ensures
        download::shown_as(first) == download::shown_as(second) <==> first == second,
        download::shown_as(first) != DisplayState::Active,
        download::shown_as(first) != DisplayState::Paused,
        download::shown_as(first) == DisplayState::Success <==> first
            == DownloadOutcome::Completed,
        download::shown_as(first) == DisplayState::Error <==> first == DownloadOutcome::Failed,
        download::shown_as(first) == DisplayState::Skipped <==> first
            == DownloadOutcome::SkippedDatabaseSignature,
{
}

/// The program ends with zero exactly after a download that completed.
pub proof fn only_completion_exits_with_zero(outcome: DownloadOutcome, code: u8)
    requires
        call_ensures(download::exit_code, (outcome,), code),
    ensures
        code == 0 <==> outcome == DownloadOutcome::Completed,
{
}

/// A new download has yet to begin, under the name of its output.
pub proof fn a_new_download_has_yet_to_begin(url: &str, output: &str, transfer: Transfer)
    requires
        call_ensures(Transfer::new, (url, output), transfer),
    ensures
        transfer@ == beginning(url@, output@),
{
}

/// Whenever a transfer starts, for the first time or again, what can be resumed is saved right
/// before it, byte for byte. Once it has started it is shown as going on, at once if it goes on
/// after a pause, and then news of it are awaited, controls too.
pub proof fn a_transfer_starts_behind_its_checkpoint(
    view: TransferView,
    first: bool,
    resume: Option<Vec<u8>>,
    output: Option<OutputStamp>,
)
    requires
        view.phase == (Phase::Saving { first }),
    ensures
        ({
            let saved = download::next(view, Event::Saved { resume, output });
            let started = download::next(saved, Event::Started { running: true });
            let drawn = download::next(started, Event::Drawn { drawn: true });
            &&& saved.checkpoint.output == output
            &&& resume matches Some(bytes) ==> saved.checkpoint.resume == Some(bytes@)
            &&& resume is None ==> saved.checkpoint.resume is None
            &&& saved.model == view.model
            &&& download::next_action(saved.phase) == Action::StartTransfer
            &&& started.model.state == DisplayState::Active
            &&& started.model.downloaded == view.model.downloaded
            &&& started.model.total == view.model.total
            &&& started.model.bytes_per_second == view.model.bytes_per_second
            &&& started.model.elapsed == view.model.elapsed
            &&& started.model.eta == view.model.eta
            &&& started.checkpoint == saved.checkpoint
            &&& download::next_action(started.phase) == (Action::Draw { force: !first })
            &&& download::next_action(drawn.phase) == (Action::AwaitNews { controls: true })
            &&& drawn.model == started.model
        }),
{
}

/// The last row of a download shows the figures that were known before, but for those of a good
/// output.
pub proof fn the_last_row_keeps_the_figures(view: TransferView, event: Event)
    requires
        download::next_action(download::next(view, event).phase) == Action::Finish,
        download::next_action(view.phase) != Action::Finish,
        !(view.phase is Cleaning),
        !(view.phase is Pausing),
    ensures
        ({
            let model = download::next(view, event).model;
            &&& model.downloaded == view.model.downloaded
            &&& model.total == view.model.total
            &&& model.bytes_per_second == view.model.bytes_per_second
            &&& model.elapsed == view.model.elapsed
            &&& model.eta == view.model.eta
        }),
{
}

/// A transfer that was to be paused shows what it last reported, however it ended.
pub proof fn the_end_of_a_pausing_transfer_is_shown(
    view: TransferView,
    result: Result<(), TransferError>,
    snapshot: Snapshot,
    elapsed: Duration,
)
    requires
        view.phase is Pausing,
    ensures
        shows(
            download::next(view, Event::Ended { result, snapshot, elapsed }).model,
            snapshot,
            elapsed,
        ),
{
}

} // verus!

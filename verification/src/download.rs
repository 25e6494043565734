//! The course of a download: what is to be done next, whatever happens.

use vstd::prelude::*;
use vstd::string::*;

use crate::paths;
use crate::paths::{display_filename, is_database_signature};
use crate::progress::{DisplayState, Duration, ModelView, ProgressModel};
use crate::signals::ControlRequest;

verus! {

/// What came of a download.
#[derive(Debug, Clone, Copy, Eq, PartialEq, Structural)]
pub enum DownloadOutcome {
    /// The output is complete.
    Completed,
    /// The server has no signature for the database.
    SkippedDatabaseSignature,
    /// The download failed.
    Failed,
    /// The download was interrupted, and may be resumed.
    Interrupted,
}

/// How far a transfer has come.
#[derive(Debug, Clone, Copy, Eq, PartialEq, Structural)]
pub enum TransferState {
    Pending,
    Downloading,
    Completed,
    Failed,
    Cancelled,
    Paused,
}

/// Why a transfer ended without success.
#[derive(Debug, Clone, Copy, Eq, PartialEq, Structural)]
pub enum TransferError {
    /// The server answered with this status.
    HttpStatus { status: u16 },
    /// The transfer was cancelled.
    Cancelled,
    /// The transfer was paused, and what can be resumed is saved.
    Paused,
    /// Anything else.
    Other,
}

/// What a transfer reports of itself.
#[derive(Debug, Clone, Copy, Eq, PartialEq)]
pub struct Snapshot {
    pub state: TransferState,
    pub downloaded: u64,
    pub total_size: Option<u64>,
    pub bytes_per_second: Option<u64>,
    pub eta: Option<Duration>,
}

/// What a paused transfer goes on with.
#[derive(Debug, Clone, Copy, Eq, PartialEq, Structural)]
pub enum PauseTransition {
    /// The process stops.
    Stop,
    /// The transfer starts again.
    Resume,
    /// The download is given up.
    Interrupt,
}

/// What became of the resume state of a complete output.
#[derive(Debug, Clone, Copy, Eq, PartialEq, Structural)]
pub enum Removal {
    Removed,
    Missing,
    Failed,
}

/// Where a download is in its course.
#[derive(Debug, Clone, Copy, Eq, PartialEq, Structural)]
pub enum Phase {
    /// The lock of the output is taken.
    Locking,
    /// What can be resumed before a transfer starts is saved.
    Saving { first: bool },
    /// A transfer is started, for the first time or again.
    Starting { first: bool },
    /// The row of a transfer that has just started is drawn.
    Announcing { force: bool },
    /// A transfer whose row could not be drawn is cancelled.
    Abandoning,
    /// The transfer runs, and maybe controls can still come.
    Driving { controls: bool },
    /// The row of the running transfer is drawn; it may have ended.
    Redrawing { controls: bool, force: bool, ended: bool },
    /// The transfer is cancelled.
    Cancelling,
    /// The transfer has ended.
    Ending,
    /// The transfer is paused.
    Pausing,
    /// The controls that came while the transfer was paused are read, before or after the
    /// last row was left standing.
    Reconciling { shown: bool, yielded: bool, transition: PauseTransition },
    /// The row of the paused transfer is drawn again.
    Refitting { shown: bool, transition: PauseTransition },
    /// The row of the paused transfer is left standing.
    Suspending,
    /// The process stops until it is continued.
    Stopping,
    /// The output of a transfer that ended well is inspected.
    Inspecting,
    /// The resume state of a good output of this size is removed.
    Cleaning { size: u64 },
    /// The output of a transfer that failed is held against the one from before it.
    Stamping { outcome: DownloadOutcome },
    /// The resume state from before a transfer that failed is brought back.
    Restoring { outcome: DownloadOutcome },
    /// The last row is drawn.
    Finishing { outcome: DownloadOutcome },
    /// Nothing is left to do.
    Done { outcome: DownloadOutcome },
}

/// What is to be done next.
#[derive(Debug, Clone, Copy, Eq, PartialEq, Structural)]
pub enum Action {
    AcquireLock,
    SaveCheckpoint,
    StartTransfer,
    Draw { force: bool },
    AwaitNews { controls: bool },
    CancelAndWait,
    Wait,
    PauseAndWait,
    PollControl { yield_first: bool },
    Suspend,
    StopProcess,
    InspectOutput,
    RemoveSidecar,
    StampOutput,
    RestoreCheckpoint,
    Finish,
    Return { outcome: DownloadOutcome },
}

/// What tells one state of a file from another.
#[derive(Debug, Clone, Copy, Eq, PartialEq, Structural)]
pub struct OutputStamp {
    pub device: u64,
    pub inode: u64,
    pub size: u64,
    pub modified_secs: i64,
    pub modified_nanos: i64,
}

/// What has happened.
#[derive(Debug, Eq, PartialEq)]
pub enum Event {
    /// The lock was taken, or could not be.
    Locked { acquired: bool },
    /// The resume state that was there, if any could be read, and the output beside it.
    Saved { resume: Option<Vec<u8>>, output: Option<OutputStamp> },
    /// The transfer was started, or could not be.
    Started { running: bool },
    /// The row was drawn, or could not be.
    Drawn { drawn: bool },
    /// The transfer reports something new of itself.
    Progress { snapshot: Snapshot, elapsed: Duration },
    /// The transfer will report nothing more.
    ProgressClosed,
    /// The transfer is asked for something, and last reported this of itself.
    Control { request: ControlRequest, snapshot: Snapshot, elapsed: Duration },
    /// The transfer will be asked for nothing more.
    ControlsClosed,
    /// The transfer has ended, and last reported this of itself.
    Ended { result: Result<(), TransferError>, snapshot: Snapshot, elapsed: Duration },
    /// The next control that has come, if any has.
    Polled { control: Option<ControlRequest> },
    /// The process was stopped and continued, or could not be stopped.
    Continued { stopped: bool },
    /// The size of the output, if it can be opened, and whether its first byte can be read.
    Inspected { size: Option<u64>, readable: bool },
    /// The resume state was removed, or not; with the average speed of the download.
    Cleaned { removal: Removal, average: Option<u64>, elapsed: Duration },
    /// The output as the failed transfer has left it.
    Stamped { output: Option<OutputStamp> },
    /// The resume state from before was brought back, as far as it could be.
    Restored,
}

/// What could be resumed before a transfer started, and the output that it belongs to.
pub ghost struct CheckpointView {
    pub resume: Option<Seq<u8>>,
    pub output: Option<OutputStamp>,
}

/// The model of [`Transfer`].
pub ghost struct TransferView {
    pub phase: Phase,
    /// What is shown of the download.
    pub model: ModelView,
    /// The download is that of a database signature.
    pub signature: bool,
    /// What was saved before the last transfer started.
    pub checkpoint: CheckpointView,
}

/// The bytes of a resume state, if there is one.
pub open spec fn bytes_of(resume: Option<Vec<u8>>) -> Option<Seq<u8>> {
    match resume {
        Some(bytes) => Some(bytes@),
        None => None,
    }
}

/// A transfer in this state will not go on.
pub open spec fn has_ended(state: TransferState) -> bool {
    state != TransferState::Pending && state != TransferState::Downloading
}

/// What is shown once a transfer has reported `snapshot` of itself.
pub open spec fn with_snapshot(
    model: ModelView,
    snapshot: Snapshot,
    elapsed: Duration,
) -> ModelView {
    ModelView {
        downloaded: snapshot.downloaded,
        total: snapshot.total_size,
        bytes_per_second: snapshot.bytes_per_second,
        elapsed,
        eta: snapshot.eta,
        ..model
    }
}

/// What is shown once an output of this size is complete.
pub open spec fn with_success(
    model: ModelView,
    size: u64,
    average: Option<u64>,
    elapsed: Duration,
) -> ModelView {
    ModelView {
        downloaded: size,
        total: Some(size),
        bytes_per_second: if average is Some {
            average
        } else {
            model.bytes_per_second
        },
        elapsed,
        eta: None,
        ..model
    }
}

/// What is shown before anything is known of the download of this file.
pub open spec fn first_model(filename: Seq<char>) -> ModelView {
    ModelView {
        filename,
        state: DisplayState::Active,
        downloaded: 0,
        total: None,
        bytes_per_second: None,
        elapsed: Duration { secs: 0, nanos: 0 },
        eta: None,
    }
}

/// How a download with this outcome is shown.
pub open spec fn shown_as(outcome: DownloadOutcome) -> DisplayState {
    match outcome {
        DownloadOutcome::Completed => DisplayState::Success,
        DownloadOutcome::SkippedDatabaseSignature => DisplayState::Skipped,
        DownloadOutcome::Failed => DisplayState::Error,
        DownloadOutcome::Interrupted => DisplayState::Interrupted,
    }
}

/// The phase and the model in which the last row shows this outcome.
pub open spec fn finishing(view: TransferView, outcome: DownloadOutcome) -> TransferView {
    TransferView {
        phase: Phase::Finishing { outcome },
        model: ModelView { state: shown_as(outcome), ..view.model },
        ..view
    }
}

/// What a transfer that failed comes to.
pub open spec fn failure_outcome(error: TransferError, signature: bool) -> DownloadOutcome {
    match error {
        TransferError::HttpStatus { status } => if (status == 404 || status == 410) && signature {
            DownloadOutcome::SkippedDatabaseSignature
        } else {
            DownloadOutcome::Failed
        },
        TransferError::Cancelled => DownloadOutcome::Interrupted,
        TransferError::Paused | TransferError::Other => DownloadOutcome::Failed,
    }
}

/// How a download goes on once its transfer has ended with `result`.
pub open spec fn concluded(view: TransferView, result: Result<(), TransferError>) -> TransferView {
    match result {
        Ok(_) => TransferView { phase: Phase::Inspecting, ..view },
        Err(TransferError::Cancelled) => finishing(view, DownloadOutcome::Interrupted),
        Err(error) => TransferView {
            phase: Phase::Stamping { outcome: failure_outcome(error, view.signature) },
            ..view
        },
    }
}

/// What a paused transfer goes on with once one more control has been read.
pub open spec fn reconciled(
    transition: PauseTransition,
    request: ControlRequest,
) -> PauseTransition {
    if transition == PauseTransition::Interrupt {
        PauseTransition::Interrupt
    } else {
        match request {
            ControlRequest::Interrupt => PauseTransition::Interrupt,
            ControlRequest::Suspend => PauseTransition::Stop,
            ControlRequest::Continue => PauseTransition::Resume,
            ControlRequest::Resize => transition,
        }
    }
}

/// What is to be done next in this phase.
pub open spec fn next_action(phase: Phase) -> Action {
    match phase {
        Phase::Locking => Action::AcquireLock,
        Phase::Saving { .. } => Action::SaveCheckpoint,
        Phase::Starting { .. } => Action::StartTransfer,
        Phase::Announcing { force } => Action::Draw { force },
        Phase::Abandoning => Action::CancelAndWait,
        Phase::Driving { controls } => Action::AwaitNews { controls },
        Phase::Redrawing { force, .. } => Action::Draw { force },
        Phase::Cancelling => Action::CancelAndWait,
        Phase::Ending => Action::Wait,
        Phase::Pausing => Action::PauseAndWait,
        Phase::Reconciling { yielded, .. } => Action::PollControl { yield_first: !yielded },
        Phase::Refitting { .. } => Action::Draw { force: true },
        Phase::Suspending => Action::Suspend,
        Phase::Stopping => Action::StopProcess,
        Phase::Inspecting => Action::InspectOutput,
        Phase::Cleaning { .. } => Action::RemoveSidecar,
        Phase::Stamping { .. } => Action::StampOutput,
        Phase::Restoring { .. } => Action::RestoreCheckpoint,
        Phase::Finishing { .. } => Action::Finish,
        Phase::Done { outcome } => Action::Return { outcome },
    }
}

/// How a running transfer goes on once it is asked for something.
pub open spec fn controlled(
    view: TransferView,
    request: ControlRequest,
    snapshot: Snapshot,
    elapsed: Duration,
) -> TransferView {
    let phase = if has_ended(snapshot.state) {
        Phase::Ending
    } else {
        match request {
            ControlRequest::Interrupt => Phase::Cancelling,
            ControlRequest::Suspend => Phase::Pausing,
            ControlRequest::Continue | ControlRequest::Resize => Phase::Redrawing {
                controls: true,
                force: true,
                ended: false,
            },
        }
    };
    TransferView { phase, model: with_snapshot(view.model, snapshot, elapsed), ..view }
}

/// How a paused transfer goes on once no control is left to read.
pub open spec fn released(
    view: TransferView,
    shown: bool,
    transition: PauseTransition,
) -> TransferView {
    match transition {
        PauseTransition::Interrupt => concluded(view, Err(TransferError::Cancelled)),
        PauseTransition::Resume => TransferView { phase: Phase::Saving { first: false }, ..view },
        PauseTransition::Stop => if shown {
            TransferView { phase: Phase::Stopping, ..view }
        } else {
            TransferView {
                phase: Phase::Suspending,
                model: ModelView { state: DisplayState::Paused, ..view.model },
                ..view
            }
        },
    }
}

/// The download once `event` has happened. An event that its phase does not wait for changes
/// nothing.
pub open spec fn next(view: TransferView, event: Event) -> TransferView {
    match (view.phase, event) {
        (Phase::Locking, Event::Locked { acquired }) => if acquired {
            TransferView { phase: Phase::Saving { first: true }, ..view }
        } else {
            finishing(view, DownloadOutcome::Failed)
        },
        (Phase::Saving { first }, Event::Saved { resume, output }) => TransferView {
            phase: Phase::Starting { first },
            checkpoint: CheckpointView { resume: bytes_of(resume), output },
            ..view
        },
        (Phase::Starting { first }, Event::Started { running }) => if running {
            TransferView {
                phase: Phase::Announcing { force: !first },
                model: ModelView { state: DisplayState::Active, ..view.model },
                ..view
            }
        } else {
            finishing(view, DownloadOutcome::Failed)
        },
        (Phase::Announcing { .. }, Event::Drawn { drawn }) => if drawn {
            TransferView { phase: Phase::Driving { controls: true }, ..view }
        } else {
            TransferView { phase: Phase::Abandoning, ..view }
        },
        (Phase::Abandoning, Event::Ended { .. }) => TransferView {
            phase: Phase::Done { outcome: DownloadOutcome::Failed },
            ..view
        },
        (Phase::Driving { controls }, Event::Progress { snapshot, elapsed }) => TransferView {
            phase: Phase::Redrawing { controls, force: false, ended: has_ended(snapshot.state) },
            model: with_snapshot(view.model, snapshot, elapsed),
            ..view
        },
        (Phase::Driving { .. }, Event::ProgressClosed) => TransferView {
            phase: Phase::Ending,
            ..view
        },
        (Phase::Driving { .. }, Event::ControlsClosed) => TransferView {
            phase: Phase::Driving { controls: false },
            ..view
        },
        (Phase::Driving { controls: true }, Event::Control { request, snapshot, elapsed }) =>
            controlled(view, request, snapshot, elapsed),
        (Phase::Redrawing { controls, ended, .. }, Event::Drawn { drawn }) => if !drawn {
            TransferView { phase: Phase::Cancelling, ..view }
        } else if ended {
            TransferView { phase: Phase::Ending, ..view }
        } else {
            TransferView { phase: Phase::Driving { controls }, ..view }
        },
        (Phase::Cancelling | Phase::Ending, Event::Ended { result, .. }) => concluded(view, result),
        (Phase::Pausing, Event::Ended { result, snapshot, elapsed }) => {
            let reported = TransferView {
                model: with_snapshot(view.model, snapshot, elapsed),
                ..view
            };
            if result == Err::<(), TransferError>(TransferError::Paused) {
                TransferView {
                    phase: Phase::Reconciling {
                        shown: false,
                        yielded: false,
                        transition: PauseTransition::Stop,
                    },
                    model: ModelView { state: DisplayState::Paused, ..reported.model },
                    ..view
                }
            } else {
                concluded(reported, result)
            }
        },
        (Phase::Reconciling { shown, transition, .. }, Event::Polled { control }) => match control {
            None => released(view, shown, transition),
            Some(request) => if request == ControlRequest::Resize && transition
                != PauseTransition::Interrupt {
                TransferView { phase: Phase::Refitting { shown, transition }, ..view }
            } else {
                TransferView {
                    phase: Phase::Reconciling {
                        shown,
                        yielded: true,
                        transition: reconciled(transition, request),
                    },
                    ..view
                }
            },
        },
        (Phase::Refitting { shown, transition }, Event::Drawn { drawn }) => if drawn {
            TransferView {
                phase: Phase::Reconciling { shown, yielded: true, transition },
                ..view
            }
        } else {
            concluded(view, Err(TransferError::Other))
        },
        (Phase::Suspending, Event::Drawn { drawn }) => if drawn {
            TransferView {
                phase: Phase::Reconciling {
                    shown: true,
                    yielded: false,
                    transition: PauseTransition::Stop,
                },
                ..view
            }
        } else {
            finishing(view, DownloadOutcome::Failed)
        },
        (Phase::Stopping, Event::Continued { stopped }) => if stopped {
            TransferView { phase: Phase::Saving { first: false }, ..view }
        } else {
            finishing(view, DownloadOutcome::Failed)
        },
        (Phase::Inspecting, Event::Inspected { size, readable }) => match size {
            Some(bytes) => if bytes > 0 && readable {
                TransferView { phase: Phase::Cleaning { size: bytes }, ..view }
            } else {
                finishing(view, DownloadOutcome::Failed)
            },
            None => finishing(view, DownloadOutcome::Failed),
        },
        (Phase::Cleaning { size }, Event::Cleaned { removal, average, elapsed }) => if removal
            == Removal::Failed {
            finishing(view, DownloadOutcome::Failed)
        } else {
            finishing(
                TransferView { model: with_success(view.model, size, average, elapsed), ..view },
                DownloadOutcome::Completed,
            )
        },
        (Phase::Stamping { outcome }, Event::Stamped { output }) => if output
            == view.checkpoint.output && view.checkpoint.resume is Some {
            TransferView { phase: Phase::Restoring { outcome }, ..view }
        } else {
            finishing(view, outcome)
        },
        (Phase::Restoring { outcome }, Event::Restored) => finishing(view, outcome),
        (Phase::Finishing { outcome }, Event::Drawn { drawn }) => TransferView {
            phase: Phase::Done {
                outcome: if drawn {
                    outcome
                } else {
                    DownloadOutcome::Failed
                },
            },
            ..view
        },
        _ => view,
    }
}

/// A download and where it is in its course.
#[derive(Debug)]
pub struct Transfer {
    phase: Phase,
    model: ProgressModel,
    signature: bool,
    resume: Option<Vec<u8>>,
    output: Option<OutputStamp>,
}

impl View for Transfer {
    type V = TransferView;

    closed spec fn view(&self) -> TransferView {
        TransferView {
            phase: self.phase,
            model: self.model@,
            signature: self.signature,
            checkpoint: CheckpointView { resume: bytes_of(self.resume), output: self.output },
        }
    }
}

/// A transfer in this state will not go on.
pub fn is_terminal(state: TransferState) -> (terminal: bool)
    ensures
        terminal == has_ended(state),
{
    match state {
        TransferState::Pending | TransferState::Downloading => false,
        _ => true,
    }
}

/// What is shown before anything is known of the download of this file.
pub fn initial_model(filename: String) -> (model: ProgressModel)
    ensures
        model@ == first_model(filename@),
{
    ProgressModel {
        filename,
        state: DisplayState::Active,
        downloaded: 0,
        total: None,
        bytes_per_second: None,
        elapsed: Duration { secs: 0, nanos: 0 },
        eta: None,
    }
}

/// Shows what a transfer has reported of itself.
pub fn apply_snapshot(model: &mut ProgressModel, snapshot: &Snapshot, elapsed: Duration)
    ensures
        final(model)@ == with_snapshot(old(model)@, *snapshot, elapsed),
{
    model.downloaded = snapshot.downloaded;
    model.total = snapshot.total_size;
    model.bytes_per_second = snapshot.bytes_per_second;
    model.elapsed = elapsed;
    model.eta = snapshot.eta;
}

/// Shows that an output of this size is complete.
pub fn apply_success(
    model: &mut ProgressModel,
    size: u64,
    average: Option<u64>,
    elapsed: Duration,
)
    ensures
        final(model)@ == with_success(old(model)@, size, average, elapsed),
{
    model.downloaded = size;
    model.total = Some(size);
    if average.is_some() {
        model.bytes_per_second = average;
    }
    model.elapsed = elapsed;
    model.eta = None;
}

/// What a paused transfer goes on with once one more control has been read.
pub fn reconcile(transition: PauseTransition, request: ControlRequest) -> (after: PauseTransition)
    ensures
        after == reconciled(transition, request),
{
    if transition == PauseTransition::Interrupt {
        return PauseTransition::Interrupt;
    }
    match request {
        ControlRequest::Interrupt => PauseTransition::Interrupt,
        ControlRequest::Suspend => PauseTransition::Stop,
        ControlRequest::Continue => PauseTransition::Resume,
        ControlRequest::Resize => transition,
    }
}

/// What a transfer that failed comes to.
fn classify_failure(error: TransferError, signature: bool) -> (outcome: DownloadOutcome)
    ensures
        outcome == failure_outcome(error, signature),
{
    match error {
        TransferError::HttpStatus { status } => {
            if (status == 404 || status == 410) && signature {
                DownloadOutcome::SkippedDatabaseSignature
            } else {
                DownloadOutcome::Failed
            }
        },
        TransferError::Cancelled => DownloadOutcome::Interrupted,
        TransferError::Paused | TransferError::Other => DownloadOutcome::Failed,
    }
}

/// How a download with this outcome is shown.
fn display_state(outcome: DownloadOutcome) -> (state: DisplayState)
    ensures
        state == shown_as(outcome),
{
    match outcome {
        DownloadOutcome::Completed => DisplayState::Success,
        DownloadOutcome::SkippedDatabaseSignature => DisplayState::Skipped,
        DownloadOutcome::Failed => DisplayState::Error,
        DownloadOutcome::Interrupted => DisplayState::Interrupted,
    }
}

impl Transfer {
    /// A download of `url` to `output` that has yet to begin.
    pub fn new(url: &str, output: &str) -> (transfer: Transfer)
        ensures
            transfer@ == (TransferView {
                phase: Phase::Locking,
                model: first_model(paths::shown_name(output@)),
                signature: paths::signature_download(url@, output@),
                checkpoint: CheckpointView { resume: None, output: None },
            }),
    {
        Transfer {
            phase: Phase::Locking,
            model: initial_model(display_filename(output)),
            signature: is_database_signature(url, output),
            resume: None,
            output: None,
        }
    }

    /// What is to be done next.
    pub fn action(&self) -> (action: Action)
        ensures
            action == next_action(self@.phase),
    {
        match self.phase {
            Phase::Locking => Action::AcquireLock,
            Phase::Saving { .. } => Action::SaveCheckpoint,
            Phase::Starting { .. } => Action::StartTransfer,
            Phase::Announcing { force } => Action::Draw { force },
            Phase::Abandoning => Action::CancelAndWait,
            Phase::Driving { controls } => Action::AwaitNews { controls },
            Phase::Redrawing { force, .. } => Action::Draw { force },
            Phase::Cancelling => Action::CancelAndWait,
            Phase::Ending => Action::Wait,
            Phase::Pausing => Action::PauseAndWait,
            Phase::Reconciling { yielded, .. } => Action::PollControl { yield_first: !yielded },
            Phase::Refitting { .. } => Action::Draw { force: true },
            Phase::Suspending => Action::Suspend,
            Phase::Stopping => Action::StopProcess,
            Phase::Inspecting => Action::InspectOutput,
            Phase::Cleaning { .. } => Action::RemoveSidecar,
            Phase::Stamping { .. } => Action::StampOutput,
            Phase::Restoring { .. } => Action::RestoreCheckpoint,
            Phase::Finishing { .. } => Action::Finish,
            Phase::Done { outcome } => Action::Return { outcome },
        }
    }

    /// What is shown of the download.
    pub fn model(&self) -> (model: &ProgressModel)
        ensures
            model@ == self@.model,
    {
        &self.model
    }

    /// What could be resumed before the last transfer started.
    pub fn checkpoint(&self) -> (resume: &Option<Vec<u8>>)
        ensures
            bytes_of(*resume) == self@.checkpoint.resume,
    {
        &self.resume
    }

    /// Goes on to the last row.
    fn finish(&mut self, outcome: DownloadOutcome)
        ensures
            final(self)@ == finishing(old(self)@, outcome),
    {
        self.phase = Phase::Finishing { outcome };
        self.model.state = display_state(outcome);
    }

    /// Goes on after the transfer has ended.
    fn conclude(&mut self, result: Result<(), TransferError>)
        ensures
            final(self)@ == concluded(old(self)@, result),
    {
        match result {
            Ok(_) => {
                self.phase = Phase::Inspecting;
            },
            Err(TransferError::Cancelled) => self.finish(DownloadOutcome::Interrupted),
            Err(error) => {
                let outcome: DownloadOutcome = classify_failure(error, self.signature);
                self.phase = Phase::Stamping { outcome };
            },
        }
    }

    /// Goes on after the output of a transfer that failed was looked at: what could be resumed
    /// before belongs only to an output that is as it was.
    fn compare(&mut self, outcome: DownloadOutcome, output: Option<OutputStamp>)
        requires
            old(self)@.phase == (Phase::Stamping { outcome }),
        ensures
            final(self)@ == next(old(self)@, Event::Stamped { output }),
    {
        let unchanged: bool = match (output, self.output) {
            (None, None) => true,
            (Some(after), Some(before)) => after == before,
            _ => false,
        };
        if unchanged && self.resume.is_some() {
            self.phase = Phase::Restoring { outcome };
        } else {
            self.finish(outcome);
        }
    }

    /// Goes on after a running transfer is asked for something.
    fn control(&mut self, request: ControlRequest, snapshot: Snapshot, elapsed: Duration)
        ensures
            final(self)@ == controlled(old(self)@, request, snapshot, elapsed),
    {
        apply_snapshot(&mut self.model, &snapshot, elapsed);
        self.phase = if is_terminal(snapshot.state) {
            Phase::Ending
        } else {
            match request {
                ControlRequest::Interrupt => Phase::Cancelling,
                ControlRequest::Suspend => Phase::Pausing,
                ControlRequest::Continue | ControlRequest::Resize => Phase::Redrawing {
                    controls: true,
                    force: true,
                    ended: false,
                },
            }
        };
    }

    /// Goes on after a transfer that was to be paused has ended.
    fn pause(&mut self, result: Result<(), TransferError>, snapshot: Snapshot, elapsed: Duration)
        requires
            old(self)@.phase == Phase::Pausing,
        ensures
            final(self)@ == next(old(self)@, Event::Ended { result, snapshot, elapsed }),
    {
        apply_snapshot(&mut self.model, &snapshot, elapsed);
        match result {
            Err(TransferError::Paused) => {
                self.model.state = DisplayState::Paused;
                self.phase = Phase::Reconciling {
                    shown: false,
                    yielded: false,
                    transition: PauseTransition::Stop,
                };
            },
            ended => self.conclude(ended),
        }
    }

    /// Goes on after a control was read while the transfer is paused, or none was left.
    fn poll(
        &mut self,
        shown: bool,
        transition: PauseTransition,
        control: Option<ControlRequest>,
    )
        requires
            old(self)@.phase is Reconciling,
            old(self)@.phase->Reconciling_shown == shown,
            old(self)@.phase->Reconciling_transition == transition,
        ensures
            final(self)@ == next(old(self)@, Event::Polled { control }),
    {
        match control {
            None => {
                match transition {
                    PauseTransition::Interrupt => self.conclude(Err(TransferError::Cancelled)),
                    PauseTransition::Resume => {
                        self.phase = Phase::Saving { first: false };
                    },
                    PauseTransition::Stop => {
                        if shown {
                            self.phase = Phase::Stopping;
                        } else {
                            self.model.state = DisplayState::Paused;
                            self.phase = Phase::Suspending;
                        }
                    },
                }
            },
            Some(request) => {
                self.phase = if request == ControlRequest::Resize && transition
                    != PauseTransition::Interrupt {
                    Phase::Refitting { shown, transition }
                } else {
                    Phase::Reconciling {
                        shown,
                        yielded: true,
                        transition: reconcile(transition, request),
                    }
                };
            },
        }
    }

    /// Goes on after a row was drawn, or could not be.
    fn draw(&mut self, drawn: bool)
        ensures
            final(self)@ == next(old(self)@, Event::Drawn { drawn }),
    {
        match self.phase {
            Phase::Announcing { .. } => {
                self.phase = if drawn {
                    Phase::Driving { controls: true }
                } else {
                    Phase::Abandoning
                };
            },
            Phase::Redrawing { controls, ended, .. } => {
                self.phase = if !drawn {
                    Phase::Cancelling
                } else if ended {
                    Phase::Ending
                } else {
                    Phase::Driving { controls }
                };
            },
            Phase::Refitting { shown, transition } => {
                if drawn {
                    self.phase = Phase::Reconciling { shown, yielded: true, transition };
                } else {
                    self.conclude(Err(TransferError::Other));
                }
            },
            Phase::Suspending => {
                if drawn {
                    self.phase = Phase::Reconciling {
                        shown: true,
                        yielded: false,
                        transition: PauseTransition::Stop,
                    };
                } else {
                    self.finish(DownloadOutcome::Failed);
                }
            },
            Phase::Finishing { outcome } => {
                self.phase = Phase::Done {
                    outcome: if drawn {
                        outcome
                    } else {
                        DownloadOutcome::Failed
                    },
                };
            },
            _ => {},
        }
    }

    /// Goes on after `event` has happened. An event that the phase does not wait for changes
    /// nothing.
    pub fn handle(&mut self, event: Event)
        ensures
            final(self)@ == next(old(self)@, event),
    {
        match (self.phase, event) {
            (_, Event::Drawn { drawn }) => self.draw(drawn),
            (Phase::Locking, Event::Locked { acquired }) => {
                if acquired {
                    self.phase = Phase::Saving { first: true };
                } else {
                    self.finish(DownloadOutcome::Failed);
                }
            },
            (Phase::Saving { first }, Event::Saved { resume, output }) => {
                self.resume = resume;
                self.output = output;
                self.phase = Phase::Starting { first };
            },
            (Phase::Starting { first }, Event::Started { running }) => {
                if running {
                    self.model.state = DisplayState::Active;
                    self.phase = Phase::Announcing { force: !first };
                } else {
                    self.finish(DownloadOutcome::Failed);
                }
            },
            (Phase::Abandoning, Event::Ended { .. }) => {
                self.phase = Phase::Done { outcome: DownloadOutcome::Failed };
            },
            (Phase::Driving { controls }, Event::Progress { snapshot, elapsed }) => {
                apply_snapshot(&mut self.model, &snapshot, elapsed);
                self.phase = Phase::Redrawing {
                    controls,
                    force: false,
                    ended: is_terminal(snapshot.state),
                };
            },
            (Phase::Driving { .. }, Event::ProgressClosed) => {
                self.phase = Phase::Ending;
            },
            (Phase::Driving { .. }, Event::ControlsClosed) => {
                self.phase = Phase::Driving { controls: false };
            },
            (Phase::Driving { controls: true }, Event::Control { request, snapshot, elapsed }) => {
                self.control(request, snapshot, elapsed);
            },
            (Phase::Cancelling, Event::Ended { result, .. }) => self.conclude(result),
            (Phase::Ending, Event::Ended { result, .. }) => self.conclude(result),
            (Phase::Pausing, Event::Ended { result, snapshot, elapsed }) => {
                self.pause(result, snapshot, elapsed);
            },
            (Phase::Reconciling { shown, transition, .. }, Event::Polled { control }) => {
                self.poll(shown, transition, control);
            },
            (Phase::Stopping, Event::Continued { stopped }) => {
                if stopped {
                    self.phase = Phase::Saving { first: false };
                } else {
                    self.finish(DownloadOutcome::Failed);
                }
            },
            (Phase::Inspecting, Event::Inspected { size, readable }) => {
                match size {
                    Some(bytes) if bytes > 0 && readable => {
                        self.phase = Phase::Cleaning { size: bytes };
                    },
                    _ => self.finish(DownloadOutcome::Failed),
                }
            },
            (Phase::Cleaning { size }, Event::Cleaned { removal, average, elapsed }) => {
                if removal == Removal::Failed {
                    self.finish(DownloadOutcome::Failed);
                } else {
                    apply_success(&mut self.model, size, average, elapsed);
                    self.finish(DownloadOutcome::Completed);
                }
            },
            (Phase::Stamping { outcome }, Event::Stamped { output }) => {
                self.compare(outcome, output);
            },
            (Phase::Restoring { outcome }, Event::Restored) => self.finish(outcome),
            _ => {},
        }
    }
}

/// The number with which the program ends: zero for a complete output, and for nothing else.
pub fn exit_code(outcome: DownloadOutcome) -> (code: u8)
    ensures
        code == (if outcome == DownloadOutcome::Completed {
            0int
        } else {
            1
        }),
{
    if outcome == DownloadOutcome::Completed {
        0
    } else {
        1
    }
}

} // verus!

//! How a planned edit takes the place of the configuration.

use vstd::prelude::*;
use vstd::string::*;

use crate::bytes::equal;
use crate::config;
use crate::config::{ConfigError, EditPlan, PlanView, Problem};
use crate::lock::FileIdentity;
use crate::numbers;
use crate::numbers::write_decimal;

verus! {

/// What the lock holds that keeps two edits apart.
pub const EDIT_LOCK: &'static str = "RustyPac edit lock v1\n";

/// How many names for the directory of a stage are tried.
pub const STAGING_ATTEMPTS: u32 = 100;

/// How an edit was applied.
#[derive(Debug, Clone, Eq, PartialEq)]
pub enum ApplyOutcome {
    /// Nothing is left to do.
    Applied,
    /// What is in this directory is left to be cleaned up.
    AppliedWithCleanupPending { staging_directory: String },
}

/// The model of what came of an edit.
pub ghost enum OutcomeView {
    Applied,
    CleanupPending { staging_directory: Seq<char> },
    /// The edit is refused.
    Refused { problem: Problem },
    /// The configuration is no longer the one that the edit was planned for.
    Changed,
    /// A file cannot be read or written.
    Io { reason: Seq<char> },
}

/// The outcome of an application is the one that the model says.
pub open spec fn outcome_is(outcome: Result<ApplyOutcome, ConfigError>, view: OutcomeView) -> bool {
    match view {
        OutcomeView::Applied => outcome == Ok::<ApplyOutcome, ConfigError>(ApplyOutcome::Applied),
        OutcomeView::CleanupPending { staging_directory } => outcome matches Ok(
            ApplyOutcome::AppliedWithCleanupPending { staging_directory: found },
        ) && found@ == staging_directory,
        OutcomeView::Refused { problem } => outcome matches Err(error) && error.reports(problem),
        OutcomeView::Changed => outcome matches Err(ConfigError::ChangedDuringEdit),
        OutcomeView::Io { reason } => outcome matches Err(ConfigError::Io(found)) && found@
            == reason,
    }
}

/// Why an edit is given up.
#[derive(Debug)]
enum Refusal {
    Refused { problem: Problem },
    Changed,
    Io { reason: String },
}

impl Refusal {
    /// The model of the refusal.
    spec fn view(&self) -> OutcomeView {
        match self {
            Refusal::Refused { problem } => OutcomeView::Refused { problem: *problem },
            Refusal::Changed => OutcomeView::Changed,
            Refusal::Io { reason } => OutcomeView::Io { reason: reason@ },
        }
    }

    /// The error that reports the refusal.
    fn error(self) -> (error: ConfigError)
        ensures
            outcome_is(Err(error), self@),
    {
        match self {
            Refusal::Refused { problem } => ConfigError::invalid(problem),
            Refusal::Changed => ConfigError::ChangedDuringEdit,
            Refusal::Io { reason } => ConfigError::Io(reason),
        }
    }
}

/// Where the application of an edit is in its course.
#[derive(Debug)]
enum Step {
    Locking,
    Marking { fresh: bool },
    Reading,
    Allocating { source: FileIdentity, attempt: u32 },
    Staging { source: FileIdentity },
    Exchanging { source: FileIdentity },
    Examining { source: FileIdentity },
    Reverting { refusal: Refusal },
    Discarding { refusal: Refusal },
    Sweeping { source: FileIdentity },
    Removing { file: bool },
    Applied,
    Pending { staging_directory: String },
    GivenUp { refusal: Refusal },
}

/// The model of where the application of an edit is in its course.
pub ghost enum StepView {
    /// Other edits are kept out.
    Locking,
    /// The lock is made private, and marked if it has just been made.
    Marking { fresh: bool },
    /// The configuration is read.
    Reading,
    /// A directory for the stage is made, under a name that is not taken.
    Allocating { source: FileIdentity, attempt: u32 },
    /// What is to be left is staged, and read again.
    Staging { source: FileIdentity },
    /// What is staged and the configuration change places.
    Exchanging { source: FileIdentity },
    /// What was displaced is read.
    Examining { source: FileIdentity },
    /// What was displaced is put back.
    Reverting { refusal: OutcomeView },
    /// What was staged is removed.
    Discarding { refusal: OutcomeView },
    /// What was displaced is looked at before it is removed.
    Sweeping { source: FileIdentity },
    /// What was displaced, if it is there, is removed with the directory that holds it.
    Removing { file: bool },
    /// Nothing is left to do.
    Done { outcome: OutcomeView },
}

/// What is to be done next.
#[derive(Debug, Clone, Copy, Eq, PartialEq, Structural)]
pub enum ApplyAction {
    TakeEditLock,
    MarkEditLock { fresh: bool },
    ReadSource,
    AllocateStage,
    Stage,
    Exchange,
    ReadDisplaced,
    ExchangeBack,
    DiscardStage,
    InspectStage,
    RemoveStage { file: bool },
    Return,
}

/// What has happened.
#[derive(Debug)]
pub enum ApplyEvent {
    /// Other edits are kept out by a lock that holds this.
    LockTaken { contents: Vec<u8> },
    /// The lock is private and marked.
    LockMarked,
    /// The configuration was read.
    SourceRead { identity: FileIdentity, regular: bool, links: u64, contents: Vec<u8> },
    /// This directory was made for the stage.
    StageAllocated { directory: String },
    /// The name of the directory was taken.
    StageNameTaken,
    /// What is to be left was staged, and read again.
    Staged { contents: Vec<u8> },
    /// What was staged and the configuration have changed places.
    Exchanged,
    /// What was displaced was read.
    DisplacedRead { identity: FileIdentity, contents: Vec<u8> },
    /// What was displaced was put back.
    ExchangedBack,
    /// What was staged was removed as far as it could be.
    Discarded,
    /// What stands where the displaced configuration was.
    StageInspected { found: Option<FileIdentity> },
    /// What was displaced was removed, or this directory is left.
    StageRemoved { left: Option<String> },
    /// What was to be done could not be, for this reason.
    Failed { reason: String },
}

/// The model of [`ApplyEvent`].
pub ghost enum ApplyEventView {
    LockTaken { contents: Seq<u8> },
    LockMarked,
    SourceRead { identity: FileIdentity, regular: bool, links: u64, contents: Seq<u8> },
    StageAllocated { directory: Seq<char> },
    StageNameTaken,
    Staged { contents: Seq<u8> },
    Exchanged,
    DisplacedRead { identity: FileIdentity, contents: Seq<u8> },
    ExchangedBack,
    Discarded,
    StageInspected { found: Option<FileIdentity> },
    StageRemoved { left: Option<Seq<char>> },
    Failed { reason: Seq<char> },
}

impl View for ApplyEvent {
    type V = ApplyEventView;

    open spec fn view(&self) -> ApplyEventView {
        match self {
            ApplyEvent::LockTaken { contents } => ApplyEventView::LockTaken { contents: contents@ },
            ApplyEvent::SourceRead { identity, regular, links, contents } =>
                ApplyEventView::SourceRead {
                    identity: *identity,
                    regular: *regular,
                    links: *links,
                    contents: contents@,
                },
            ApplyEvent::LockMarked => ApplyEventView::LockMarked,
            ApplyEvent::StageAllocated { directory } => ApplyEventView::StageAllocated {
                directory: directory@,
            },
            ApplyEvent::StageNameTaken => ApplyEventView::StageNameTaken,
            ApplyEvent::Staged { contents } => ApplyEventView::Staged { contents: contents@ },
            ApplyEvent::Exchanged => ApplyEventView::Exchanged,
            ApplyEvent::DisplacedRead { identity, contents } => ApplyEventView::DisplacedRead {
                identity: *identity,
                contents: contents@,
            },
            ApplyEvent::ExchangedBack => ApplyEventView::ExchangedBack,
            ApplyEvent::Discarded => ApplyEventView::Discarded,
            ApplyEvent::StageInspected { found } => ApplyEventView::StageInspected {
                found: *found,
            },
            ApplyEvent::StageRemoved { left: Some(directory) } => ApplyEventView::StageRemoved {
                left: Some(directory@),
            },
            ApplyEvent::StageRemoved { left: None } => ApplyEventView::StageRemoved { left: None },
            ApplyEvent::Failed { reason } => ApplyEventView::Failed { reason: reason@ },
        }
    }
}

/// The application of a planned edit, with the directory in which it is staged once there is
/// one.
#[derive(Debug)]
pub struct Application<'a> {
    plan: &'a EditPlan,
    directory: String,
    step: Step,
}

/// The model of [`Application`].
pub ghost struct ApplicationView {
    pub plan: PlanView,
    pub directory: Seq<char>,
    pub step: StepView,
}

impl<'a> View for Application<'a> {
    type V = ApplicationView;

    closed spec fn view(&self) -> ApplicationView {
        ApplicationView {
            plan: self.plan@,
            directory: self.directory@,
            step: match self.step {
                Step::Locking => StepView::Locking,
                Step::Marking { fresh } => StepView::Marking { fresh },
                Step::Reading => StepView::Reading,
                Step::Allocating { source, attempt } => StepView::Allocating { source, attempt },
                Step::Staging { source } => StepView::Staging { source },
                Step::Exchanging { source } => StepView::Exchanging { source },
                Step::Examining { source } => StepView::Examining { source },
                Step::Reverting { refusal } => StepView::Reverting { refusal: refusal@ },
                Step::Discarding { refusal } => StepView::Discarding { refusal: refusal@ },
                Step::Sweeping { source } => StepView::Sweeping { source },
                Step::Removing { file } => StepView::Removing { file },
                Step::Applied => StepView::Done { outcome: OutcomeView::Applied },
                Step::Pending { staging_directory } => StepView::Done {
                    outcome: OutcomeView::CleanupPending { staging_directory: staging_directory@ },
                },
                Step::GivenUp { refusal } => StepView::Done { outcome: refusal@ },
            },
        }
    }
}

/// The application once its step is `step`.
pub open spec fn at(view: ApplicationView, step: StepView) -> ApplicationView {
    ApplicationView { step, ..view }
}

/// The lock holds what a lock of this program holds, or has just been made.
pub open spec fn is_edit_lock(contents: Seq<u8>) -> bool {
    contents.len() == 0 || contents == vstd::utf8::encode_utf8(EDIT_LOCK@)
}

/// The step behind reading the configuration.
pub open spec fn source_step(
    plan: PlanView,
    identity: FileIdentity,
    regular: bool,
    links: u64,
    contents: Seq<u8>,
) -> StepView {
    if !regular {
        StepView::Done { outcome: OutcomeView::Refused { problem: Problem::NotRegular } }
    } else if links != 1 {
        StepView::Done { outcome: OutcomeView::Refused { problem: Problem::HardLinked } }
    } else if contents != plan.original {
        StepView::Done { outcome: OutcomeView::Changed }
    } else {
        StepView::Allocating { source: identity, attempt: 0 }
    }
}

/// The step behind finding the name of the stage taken: the next name, while there is one.
pub open spec fn taken_step(source: FileIdentity, attempt: u32) -> StepView {
    if attempt + 1 < STAGING_ATTEMPTS {
        StepView::Allocating { source, attempt: (attempt + 1) as u32 }
    } else {
        StepView::Done { outcome: OutcomeView::Refused { problem: Problem::NoStagingName } }
    }
}

/// The application once `event` has happened. An event that its step does not wait for changes
/// nothing.
pub open spec fn next(view: ApplicationView, event: ApplyEventView) -> ApplicationView {
    match (view.step, event) {
        (StepView::Locking, ApplyEventView::LockTaken { contents }) => if is_edit_lock(contents) {
            at(view, StepView::Marking { fresh: contents.len() == 0 })
        } else {
            at(
                view,
                StepView::Done {
                    outcome: OutcomeView::Refused { problem: Problem::ForeignEditLock },
                },
            )
        },
        (StepView::Marking { .. }, ApplyEventView::LockMarked) => at(view, StepView::Reading),
        (
            StepView::Locking | StepView::Marking { .. } | StepView::Reading
            | StepView::Allocating { .. } | StepView::Reverting { .. },
            ApplyEventView::Failed { reason },
        ) => at(view, StepView::Done { outcome: OutcomeView::Io { reason } }),
        (
            StepView::Reading,
            ApplyEventView::SourceRead { identity, regular, links, contents },
        ) => at(view, source_step(view.plan, identity, regular, links, contents)),
        (StepView::Allocating { source, .. }, ApplyEventView::StageAllocated { directory }) =>
            ApplicationView { directory, step: StepView::Staging { source }, ..view },
        (StepView::Allocating { source, attempt }, ApplyEventView::StageNameTaken) => at(
            view,
            taken_step(source, attempt),
        ),
        (StepView::Staging { source }, ApplyEventView::Staged { contents }) =>
            match config::staged_problem(view.plan, contents) {
                None => at(view, StepView::Exchanging { source }),
                Some(problem) => at(
                    view,
                    StepView::Discarding { refusal: OutcomeView::Refused { problem } },
                ),
            },
        (
            StepView::Staging { .. } | StepView::Exchanging { .. },
            ApplyEventView::Failed { reason },
        ) => at(view, StepView::Discarding { refusal: OutcomeView::Io { reason } }),
        (StepView::Exchanging { source }, ApplyEventView::Exchanged) => at(
            view,
            StepView::Examining { source },
        ),
        (StepView::Examining { source }, ApplyEventView::DisplacedRead { identity, contents }) =>
            if identity == source && contents == view.plan.original {
                at(view, StepView::Sweeping { source })
            } else {
                at(view, StepView::Reverting { refusal: OutcomeView::Changed })
            },
        (StepView::Examining { .. }, ApplyEventView::Failed { reason }) => at(
            view,
            StepView::Reverting { refusal: OutcomeView::Io { reason } },
        ),
        (StepView::Reverting { refusal }, ApplyEventView::ExchangedBack) => at(
            view,
            StepView::Discarding { refusal },
        ),
        (StepView::Discarding { refusal }, ApplyEventView::Discarded) => at(
            view,
            StepView::Done { outcome: refusal },
        ),
        (StepView::Sweeping { source }, ApplyEventView::StageInspected { found }) => match found {
            None => at(view, StepView::Removing { file: false }),
            Some(identity) => if identity == source {
                at(view, StepView::Removing { file: true })
            } else {
                at(view, pending(view))
            },
        },
        (StepView::Removing { .. }, ApplyEventView::StageRemoved { left }) => match left {
            None => at(view, StepView::Done { outcome: OutcomeView::Applied }),
            Some(staging_directory) => at(
                view,
                StepView::Done { outcome: OutcomeView::CleanupPending { staging_directory } },
            ),
        },
        (StepView::Sweeping { .. }, ApplyEventView::Failed { .. }) => at(view, pending(view)),
        _ => view,
    }
}

/// The edit is applied, and its directory is left to be cleaned up.
pub open spec fn pending(view: ApplicationView) -> StepView {
    StepView::Done { outcome: OutcomeView::CleanupPending { staging_directory: view.directory } }
}

/// What is to be done next at this step.
pub open spec fn next_action(step: StepView) -> ApplyAction {
    match step {
        StepView::Locking => ApplyAction::TakeEditLock,
        StepView::Marking { fresh } => ApplyAction::MarkEditLock { fresh },
        StepView::Reading => ApplyAction::ReadSource,
        StepView::Allocating { .. } => ApplyAction::AllocateStage,
        StepView::Staging { .. } => ApplyAction::Stage,
        StepView::Exchanging { .. } => ApplyAction::Exchange,
        StepView::Examining { .. } => ApplyAction::ReadDisplaced,
        StepView::Reverting { .. } => ApplyAction::ExchangeBack,
        StepView::Discarding { .. } => ApplyAction::DiscardStage,
        StepView::Sweeping { .. } => ApplyAction::InspectStage,
        StepView::Removing { file } => ApplyAction::RemoveStage { file },
        StepView::Done { .. } => ApplyAction::Return,
    }
}

/// The name of the lock that keeps two edits of the file `name` apart.
pub fn edit_lock_name(name: &str) -> (lock: String)
    ensures
        lock@ == "."@ + name@ + ".rustypac-edit.lock"@,
{
    let mut lock: String = ".".to_owned();
    lock.append(name);
    lock.append(".rustypac-edit.lock");
    lock
}

/// The name of the directory in which the process `pid` stages its edit number `sequence` of
/// the file `name`.
pub fn staging_name(name: &str, pid: u32, sequence: u64) -> (directory: String)
    ensures
        directory@ == "."@ + name@ + ".rustypac-stage-"@ + numbers::decimal(pid as nat) + "-"@
            + numbers::decimal(sequence as nat),
{
    let mut directory: String = ".".to_owned();
    directory.append(name);
    directory.append(".rustypac-stage-");
    directory.append(write_decimal(pid as u64).as_str());
    directory.append("-");
    directory.append(write_decimal(sequence).as_str());
    directory
}

impl<'a> Application<'a> {
    /// The application of `plan`. A plan that changes nothing is applied already.
    pub fn new(plan: &'a EditPlan) -> (application: Application<'a>)
        ensures
            application@ == (ApplicationView {
                plan: plan@,
                directory: seq![],
                step: if plan@.original == plan@.replacement {
                    StepView::Done { outcome: OutcomeView::Applied }
                } else {
                    StepView::Locking
                },
            }),
    {
        let step: Step = if plan.changed() {
            Step::Locking
        } else {
            Step::Applied
        };
        Application { plan, directory: String::new(), step }
    }

    /// What is to be done next.
    pub fn action(&self) -> (action: ApplyAction)
        ensures
            action == next_action(self@.step),
    {
        match &self.step {
            Step::Locking => ApplyAction::TakeEditLock,
            Step::Marking { fresh } => ApplyAction::MarkEditLock { fresh: *fresh },
            Step::Reading => ApplyAction::ReadSource,
            Step::Allocating { .. } => ApplyAction::AllocateStage,
            Step::Staging { .. } => ApplyAction::Stage,
            Step::Exchanging { .. } => ApplyAction::Exchange,
            Step::Examining { .. } => ApplyAction::ReadDisplaced,
            Step::Reverting { .. } => ApplyAction::ExchangeBack,
            Step::Discarding { .. } => ApplyAction::DiscardStage,
            Step::Sweeping { .. } => ApplyAction::InspectStage,
            Step::Removing { file } => ApplyAction::RemoveStage { file: *file },
            Step::Applied | Step::Pending { .. } | Step::GivenUp { .. } => ApplyAction::Return,
        }
    }

    /// The bytes to stage.
    pub fn contents(&self) -> (contents: &[u8])
        ensures
            contents@ == self@.plan.replacement,
    {
        self.plan.contents()
    }

    /// What came of the edit; none while that is open.
    pub fn outcome(self) -> (outcome: Option<Result<ApplyOutcome, ConfigError>>)
        ensures
            outcome is Some <==> self@.step is Done,
            outcome matches Some(found) ==> outcome_is(found, self@.step->outcome),
    {
        match self.step {
            Step::Applied => Some(Ok(ApplyOutcome::Applied)),
            Step::Pending { staging_directory } => Some(
                Ok(ApplyOutcome::AppliedWithCleanupPending { staging_directory }),
            ),
            Step::GivenUp { refusal } => Some(Err(refusal.error())),
            _ => None,
        }
    }

    /// The step behind reading the configuration.
    fn read_source(
        &self,
        identity: FileIdentity,
        regular: bool,
        links: u64,
        contents: &[u8],
    ) -> (step: Step)
        ensures
            step matches Step::Allocating { source, attempt } ==> source_step(
                self@.plan,
                identity,
                regular,
                links,
                contents@,
            ) == (StepView::Allocating { source, attempt }),
            step matches Step::GivenUp { refusal } ==> source_step(
                self@.plan,
                identity,
                regular,
                links,
                contents@,
            ) == (StepView::Done { outcome: refusal@ }),
            step is Allocating || step is GivenUp,
    {
        if !regular {
            return Step::GivenUp { refusal: Refusal::Refused { problem: Problem::NotRegular } };
        }
        if links != 1 {
            return Step::GivenUp { refusal: Refusal::Refused { problem: Problem::HardLinked } };
        }
        match self.plan.verify_source(contents) {
            Ok(_) => Step::Allocating { source: identity, attempt: 0 },
            Err(_) => Step::GivenUp { refusal: Refusal::Changed },
        }
    }

    /// Goes on after `event` has happened. An event that the step does not wait for changes
    /// nothing.
    pub fn handle(self, event: ApplyEvent) -> (after: Application<'a>)
        ensures
            after@ == next(self@, event@),
    {
        let Application { plan, directory, step } = self;
        let current = Application { plan, directory, step: Step::Reading };
        match (step, event) {
            (Step::Locking, ApplyEvent::LockTaken { contents }) => {
                let step: Step = if contents.len() == 0 || equal(
                    contents.as_slice(),
                    EDIT_LOCK.as_bytes(),
                ) {
                    Step::Marking { fresh: contents.len() == 0 }
                } else {
                    Step::GivenUp {
                        refusal: Refusal::Refused { problem: Problem::ForeignEditLock },
                    }
                };
                current.enter(step)
            },
            (Step::Locking, ApplyEvent::Failed { reason }) => current.enter(
                Step::GivenUp { refusal: Refusal::Io { reason } },
            ),
            (Step::Marking { .. }, ApplyEvent::LockMarked) => current.enter(Step::Reading),
            (Step::Marking { .. }, ApplyEvent::Failed { reason }) => current.enter(
                Step::GivenUp { refusal: Refusal::Io { reason } },
            ),
            (Step::Allocating { .. }, ApplyEvent::Failed { reason }) => current.enter(
                Step::GivenUp { refusal: Refusal::Io { reason } },
            ),
            (Step::Allocating { source, .. }, ApplyEvent::StageAllocated { directory }) => {
                Application { plan: current.plan, directory, step: Step::Staging { source } }
            },
            (Step::Allocating { source, attempt }, ApplyEvent::StageNameTaken) => {
                if attempt < STAGING_ATTEMPTS - 1 {
                    current.enter(Step::Allocating { source, attempt: attempt + 1 })
                } else {
                    current.enter(
                        Step::GivenUp {
                            refusal: Refusal::Refused { problem: Problem::NoStagingName },
                        },
                    )
                }
            },
            (Step::Reading, ApplyEvent::Failed { reason }) => current.enter(
                Step::GivenUp { refusal: Refusal::Io { reason } },
            ),
            (Step::Reverting { .. }, ApplyEvent::Failed { reason }) => current.enter(
                Step::GivenUp { refusal: Refusal::Io { reason } },
            ),
            (Step::Reading, ApplyEvent::SourceRead { identity, regular, links, contents }) => {
                let step: Step = current.read_source(
                    identity,
                    regular,
                    links,
                    contents.as_slice(),
                );
                current.enter(step)
            },
            (Step::Staging { source }, ApplyEvent::Staged { contents }) => {
                match current.plan.staged_refusal(contents.as_slice()) {
                    None => current.enter(Step::Exchanging { source }),
                    Some(problem) => current.enter(
                        Step::Discarding { refusal: Refusal::Refused { problem } },
                    ),
                }
            },
            (Step::Staging { .. }, ApplyEvent::Failed { reason }) => current.enter(
                Step::Discarding { refusal: Refusal::Io { reason } },
            ),
            (Step::Exchanging { .. }, ApplyEvent::Failed { reason }) => current.enter(
                Step::Discarding { refusal: Refusal::Io { reason } },
            ),
            (Step::Exchanging { source }, ApplyEvent::Exchanged) => current.enter(
                Step::Examining { source },
            ),
            (Step::Examining { source }, ApplyEvent::DisplacedRead { identity, contents }) => {
                let verdict: Result<(), ConfigError> = current.plan.verify_source(
                    contents.as_slice(),
                );
                if identity == source && verdict.is_ok() {
                    current.enter(Step::Sweeping { source })
                } else {
                    current.enter(Step::Reverting { refusal: Refusal::Changed })
                }
            },
            (Step::Examining { .. }, ApplyEvent::Failed { reason }) => current.enter(
                Step::Reverting { refusal: Refusal::Io { reason } },
            ),
            (Step::Reverting { refusal }, ApplyEvent::ExchangedBack) => current.enter(
                Step::Discarding { refusal },
            ),
            (Step::Discarding { refusal }, ApplyEvent::Discarded) => current.enter(
                Step::GivenUp { refusal },
            ),
            (Step::Sweeping { source }, ApplyEvent::StageInspected { found }) => match found {
                None => current.enter(Step::Removing { file: false }),
                Some(identity) => {
                    if identity == source {
                        current.enter(Step::Removing { file: true })
                    } else {
                        current.leave_pending()
                    }
                },
            },
            (Step::Removing { .. }, ApplyEvent::StageRemoved { left }) => match left {
                None => current.enter(Step::Applied),
                Some(staging_directory) => current.enter(Step::Pending { staging_directory }),
            },
            (Step::Sweeping { .. }, ApplyEvent::Failed { .. }) => current.leave_pending(),
            (same_step, _) => current.enter(same_step),
        }
    }

    /// The application at another step.
    fn enter(self, step: Step) -> (after: Application<'a>)
        ensures
            after.step == step,
            after.plan == self.plan,
            after.directory == self.directory,
    {
        Application { plan: self.plan, directory: self.directory, step }
    }

    /// The application once it is over, with its directory left to be cleaned up.
    fn leave_pending(self) -> (after: Application<'a>)
        ensures
            after@ == at(self@, pending(self@)),
    {
        let staging_directory: String = self.directory.clone();
        self.enter(Step::Pending { staging_directory })
    }
}

} // verus!

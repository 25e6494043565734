//! The lock that keeps two processes from writing one output.

use vstd::prelude::*;
use vstd::string::*;

use crate::numbers;
use crate::numbers::{parse_number, split_fields, write_decimal};
use crate::paths::lock_path;
use crate::text;
use crate::text::{characters, last_start};

verus! {

/// A process: its number, and when it started.
#[derive(Debug, Clone, Copy, Eq, PartialEq, Structural)]
pub struct OwnerRecord {
    pub pid: u32,
    pub start_time: u64,
}

/// What tells one file from another.
#[derive(Debug, Clone, Copy, Eq, PartialEq, Structural)]
pub struct FileIdentity {
    pub device: u64,
    pub inode: u64,
}

/// A lock as it was read.
#[derive(Debug, Clone, Copy, Eq, PartialEq, Structural)]
pub struct LockSnapshot {
    pub owner: OwnerRecord,
    pub identity: FileIdentity,
}

/// Why a lock cannot be taken.
#[derive(Debug)]
pub enum LockError {
    /// A live process holds it.
    Held { pid: u32 },
    /// It cannot be told whether a live process holds it.
    Unverifiable { path: String, reason: String },
    /// A file cannot be read or written.
    Io { operation: &'static str, path: String, reason: String },
}

/// The model of [`LockError`].
pub ghost enum LockErrorView {
    Held { pid: u32 },
    Unverifiable { path: Seq<char>, reason: Seq<char> },
    Io { operation: Seq<char>, path: Seq<char>, reason: Seq<char> },
}

impl View for LockError {
    type V = LockErrorView;

    open spec fn view(&self) -> LockErrorView {
        match self {
            LockError::Held { pid } => LockErrorView::Held { pid: *pid },
            LockError::Unverifiable { path, reason } => LockErrorView::Unverifiable {
                path: path@,
                reason: reason@,
            },
            LockError::Io { operation, path, reason } => LockErrorView::Io {
                operation: operation@,
                path: path@,
                reason: reason@,
            },
        }
    }
}

/// What a user is told of an error.
pub open spec fn error_text(error: LockErrorView) -> Seq<char> {
    match error {
        LockErrorView::Held { pid } => "output is locked by live process "@ + numbers::decimal(
            pid as nat,
        ),
        LockErrorView::Unverifiable { path, reason } => "cannot verify lock "@ + path + ": "@
            + reason,
        LockErrorView::Io { operation, path, reason } => "failed to "@ + operation + " lock "@
            + path + ": "@ + reason,
    }
}

impl LockError {
    /// What a user is told.
    pub fn message(&self) -> (message: String)
        ensures
            message@ == error_text(self@),
    {
        match self {
            LockError::Held { pid } => {
                let mut message: String = "output is locked by live process ".to_owned();
                message.append(write_decimal(*pid as u64).as_str());
                message
            },
            LockError::Unverifiable { path, reason } => {
                let mut message: String = "cannot verify lock ".to_owned();
                message.append(path.as_str());
                message.append(": ");
                message.append(reason.as_str());
                message
            },
            LockError::Io { operation, path, reason } => {
                let mut message: String = "failed to ".to_owned();
                message.append(operation);
                message.append(" lock ");
                message.append(path.as_str());
                message.append(": ");
                message.append(reason.as_str());
                message
            },
        }
    }
}

/// What a lock of `owner` holds.
pub open spec fn record_text(owner: OwnerRecord) -> Seq<char> {
    numbers::decimal(owner.pid as nat) + " "@ + numbers::decimal(owner.start_time as nat) + "\n"@
}

/// The owner that a lock names, or what is wrong with it.
pub open spec fn recorded_owner(contents: Seq<char>) -> Result<OwnerRecord, Seq<char>> {
    let all = numbers::fields(contents);
    if all.len() == 0 {
        Err("owner PID is missing"@)
    } else {
        match numbers::parsed_number(all[0], u32::MAX as nat) {
            None => Err("owner PID is invalid"@),
            Some(pid) => if all.len() == 1 {
                Err("owner start time is missing"@)
            } else {
                match numbers::parsed_number(all[1], u64::MAX as nat) {
                    None => Err("owner start time is invalid"@),
                    Some(start_time) => if all.len() > 2 {
                        Err("owner record has unexpected fields"@)
                    } else {
                        Ok(OwnerRecord { pid: pid as u32, start_time: start_time as u64 })
                    },
                }
            },
        }
    }
}

/// When a process started, by its record in the process file system: the twenty-second field,
/// counted from the process number on, where the name in parentheses is one field.
pub open spec fn recorded_start(contents: Seq<char>) -> Result<u64, Seq<char>> {
    if !contents.contains(')') {
        Err("process name has no closing parenthesis"@)
    } else {
        let all = numbers::fields(text::after_last(contents, ')'));
        if all.len() <= 19 {
            Err("start-time field 22 is missing"@)
        } else {
            match numbers::parsed_number(all[19], u64::MAX as nat) {
                None => Err("start-time field 22 is invalid"@),
                Some(start_time) => Ok(start_time as u64),
            }
        }
    }
}

/// What a lock of `owner` holds.
pub fn owner_record(owner: OwnerRecord) -> (contents: String)
    ensures
        contents@ == record_text(owner),
{
    let mut contents: String = write_decimal(owner.pid as u64);
    contents.append(" ");
    contents.append(write_decimal(owner.start_time).as_str());
    contents.append("\n");
    contents
}

/// The owner that a lock names, or what is wrong with it.
pub fn parse_owner_record(contents: &str) -> (owner: Result<OwnerRecord, String>)
    ensures
        match recorded_owner(contents@) {
            Ok(found) => owner == Ok::<OwnerRecord, String>(found),
            Err(reason) => owner matches Err(given) && given@ == reason,
        },
{
    let all: Vec<char> = characters(contents);
    let fields: Vec<String> = split_fields(all.as_slice(), 0);
    assert(all@.skip(0) =~= contents@);
    assert(numbers::field_views(fields@).len() == fields@.len());
    if fields.len() == 0 {
        return Err("owner PID is missing".to_owned());
    }
    let pid: u64 = match parse_number(fields[0].as_str(), u32::MAX as u64) {
        Some(value) => value,
        None => {
            return Err("owner PID is invalid".to_owned());
        },
    };
    if fields.len() == 1 {
        return Err("owner start time is missing".to_owned());
    }
    let start_time: u64 = match parse_number(fields[1].as_str(), u64::MAX) {
        Some(value) => value,
        None => {
            return Err("owner start time is invalid".to_owned());
        },
    };
    if fields.len() > 2 {
        return Err("owner record has unexpected fields".to_owned());
    }
    Ok(OwnerRecord { pid: pid as u32, start_time })
}

/// When a process started, by its record in the process file system.
pub fn parse_proc_start_time(contents: &str) -> (start_time: Result<u64, String>)
    ensures
        match recorded_start(contents@) {
            Ok(found) => start_time == Ok::<u64, String>(found),
            Err(reason) => start_time matches Err(given) && given@ == reason,
        },
{
    let all: Vec<char> = characters(contents);
    let start: usize = last_start(all.as_slice(), ')');
    if start == 0 {
        assert(!contents@.contains(')')) by {
            assert(all@.skip(0) =~= contents@);
            lemma_nothing_before(contents@, ')');
        }
        return Err("process name has no closing parenthesis".to_owned());
    }
    assert(contents@[start - 1] == ')');
    let fields: Vec<String> = split_fields(all.as_slice(), start);
    assert(numbers::field_views(fields@).len() == fields@.len());
    if fields.len() <= 19 {
        return Err("start-time field 22 is missing".to_owned());
    }
    match parse_number(fields[19].as_str(), u64::MAX) {
        Some(value) => Ok(value),
        None => Err("start-time field 22 is invalid".to_owned()),
    }
}

/// Text that is all behind the last `stop` holds none.
proof fn lemma_nothing_before(all: Seq<char>, stop: char)
    requires
        text::after_last(all, stop) == all,
    ensures
        !all.contains(stop),
    decreases all.len(),
{
    if all.len() > 0 {
        assert(all.last() != stop);
        assert(text::after_last(all.drop_last(), stop) =~= all.drop_last()) by {
            assert(all.drop_last() =~= text::after_last(all, stop).drop_last());
        }
        lemma_nothing_before(all.drop_last(), stop);
        if all.contains(stop) {
            let i = all.index_of(stop);
            assert(all.drop_last()[i] == stop);
        }
    }
}

/// Where taking a lock is in its course.
#[derive(Debug)]
enum Stage {
    Identifying,
    Creating { owner: OwnerRecord, recovering: bool },
    Reading { owner: OwnerRecord },
    Probing { owner: OwnerRecord, held: LockSnapshot },
    Rereading { owner: OwnerRecord, held: LockSnapshot },
    Removing { owner: OwnerRecord, held: LockSnapshot },
    Taken { owner: OwnerRecord, identity: FileIdentity },
    Refused { error: LockError },
}

/// The model of where taking a lock is in its course.
pub ghost enum StageView {
    /// The process finds out who it is.
    Identifying,
    /// The lock is created, at first or after a stale one was removed.
    Creating { owner: OwnerRecord, recovering: bool },
    /// A lock that is there already is read.
    Reading { owner: OwnerRecord },
    /// The process that holds the lock is looked for.
    Probing { owner: OwnerRecord, held: LockSnapshot },
    /// A lock that no live process holds is read again, with other recoveries kept out.
    Rereading { owner: OwnerRecord, held: LockSnapshot },
    /// A lock that no live process holds is removed, with other recoveries kept out.
    Removing { owner: OwnerRecord, held: LockSnapshot },
    /// The lock is taken.
    Taken { owner: OwnerRecord, identity: FileIdentity },
    /// The lock is not taken.
    Refused { error: LockErrorView },
}

/// What is to be done next.
#[derive(Debug, Clone, Copy, Eq, PartialEq, Structural)]
pub enum LockAction {
    /// Read the record of this process.
    ReadSelf,
    /// Create the lock for this owner.
    Create { owner: OwnerRecord },
    /// Read the lock.
    Read,
    /// Read the record of the process with this number.
    ReadProcess { pid: u32 },
    /// Keep other recoveries out, and read the lock again.
    ReadGuarded,
    /// Remove the lock, and let other recoveries in again.
    Remove,
    /// Nothing: the lock is taken or refused.
    Return,
}

/// What has happened.
#[derive(Debug)]
pub enum LockEvent {
    /// The record of this process was read, or could not be, for this reason.
    SelfRead(Result<String, String>),
    /// The lock was created.
    Created { identity: FileIdentity },
    /// The lock was there already.
    Exists,
    /// The lock could not be created: this operation failed, for this reason.
    NotCreated { operation: &'static str, reason: String },
    /// The lock was read.
    LockRead { contents: String, identity: FileIdentity },
    /// The lock could not be read: this operation failed, for this reason.
    LockUnread { operation: &'static str, reason: String },
    /// The record of the other process was read.
    ProcessRead { contents: String },
    /// There is no such process.
    ProcessMissing,
    /// The record of the other process could not be read, for this reason.
    ProcessUnread { reason: String },
    /// The lock was removed, or could not be, for this reason.
    Removed(Result<(), String>),
}

/// The model of [`LockEvent`].
pub ghost enum LockEventView {
    SelfRead(Result<Seq<char>, Seq<char>>),
    Created { identity: FileIdentity },
    Exists,
    NotCreated { operation: Seq<char>, reason: Seq<char> },
    LockRead { contents: Seq<char>, identity: FileIdentity },
    LockUnread { operation: Seq<char>, reason: Seq<char> },
    ProcessRead { contents: Seq<char> },
    ProcessMissing,
    ProcessUnread { reason: Seq<char> },
    Removed(Result<(), Seq<char>>),
}

impl View for LockEvent {
    type V = LockEventView;

    open spec fn view(&self) -> LockEventView {
        match self {
            LockEvent::SelfRead(Ok(contents)) => LockEventView::SelfRead(Ok(contents@)),
            LockEvent::SelfRead(Err(reason)) => LockEventView::SelfRead(Err(reason@)),
            LockEvent::Created { identity } => LockEventView::Created { identity: *identity },
            LockEvent::Exists => LockEventView::Exists,
            LockEvent::NotCreated { operation, reason } => LockEventView::NotCreated {
                operation: operation@,
                reason: reason@,
            },
            LockEvent::LockRead { contents, identity } => LockEventView::LockRead {
                contents: contents@,
                identity: *identity,
            },
            LockEvent::LockUnread { operation, reason } => LockEventView::LockUnread {
                operation: operation@,
                reason: reason@,
            },
            LockEvent::ProcessRead { contents } => LockEventView::ProcessRead {
                contents: contents@,
            },
            LockEvent::ProcessMissing => LockEventView::ProcessMissing,
            LockEvent::ProcessUnread { reason } => LockEventView::ProcessUnread { reason: reason@ },
            LockEvent::Removed(Ok(_)) => LockEventView::Removed(Ok(())),
            LockEvent::Removed(Err(reason)) => LockEventView::Removed(Err(reason@)),
        }
    }
}

/// The taking of the lock of an output.
#[derive(Debug)]
pub struct Acquisition {
    path: String,
    pid: u32,
    stage: Stage,
}

/// The model of [`Acquisition`].
pub ghost struct AcquisitionView {
    /// Where the lock is.
    pub path: Seq<char>,
    /// The number of this process.
    pub pid: u32,
    pub stage: StageView,
}

impl View for Acquisition {
    type V = AcquisitionView;

    closed spec fn view(&self) -> AcquisitionView {
        AcquisitionView {
            path: self.path@,
            pid: self.pid,
            stage: match self.stage {
                Stage::Identifying => StageView::Identifying,
                Stage::Creating { owner, recovering } => StageView::Creating { owner, recovering },
                Stage::Reading { owner } => StageView::Reading { owner },
                Stage::Probing { owner, held } => StageView::Probing { owner, held },
                Stage::Rereading { owner, held } => StageView::Rereading { owner, held },
                Stage::Removing { owner, held } => StageView::Removing { owner, held },
                Stage::Taken { owner, identity } => StageView::Taken { owner, identity },
                Stage::Refused { error } => StageView::Refused { error: error@ },
            },
        }
    }
}

/// Where the record of a process is.
pub open spec fn record_path(pid: u32) -> Seq<char> {
    "/proc/"@ + numbers::decimal(pid as nat) + "/stat"@
}

/// The lock is refused.
pub open spec fn refused(view: AcquisitionView, error: LockErrorView) -> AcquisitionView {
    AcquisitionView { stage: StageView::Refused { error }, ..view }
}

/// The lock is refused because it cannot be told who holds it.
pub open spec fn doubtful(view: AcquisitionView, reason: Seq<char>) -> AcquisitionView {
    refused(view, LockErrorView::Unverifiable { path: view.path, reason })
}

/// Taking the lock once this process knows who it is.
pub open spec fn identified(view: AcquisitionView, contents: Seq<char>) -> AcquisitionView {
    match recorded_start(contents) {
        Err(reason) => refused(
            view,
            LockErrorView::Unverifiable { path: record_path(view.pid), reason },
        ),
        Ok(start_time) => AcquisitionView {
            stage: StageView::Creating {
                owner: OwnerRecord { pid: view.pid, start_time },
                recovering: false,
            },
            ..view
        },
    }
}

/// Taking the lock once the process that holds it was looked for; `start` is when it started,
/// if it is there.
pub open spec fn probed(
    view: AcquisitionView,
    owner: OwnerRecord,
    held: LockSnapshot,
    start: Option<u64>,
) -> AcquisitionView {
    if start == Some(held.owner.start_time) {
        refused(view, LockErrorView::Held { pid: held.owner.pid })
    } else {
        AcquisitionView { stage: StageView::Rereading { owner, held }, ..view }
    }
}

/// Taking the lock once `event` has happened. An event that its stage does not wait for
/// changes nothing.
pub open spec fn next(view: AcquisitionView, event: LockEventView) -> AcquisitionView {
    match (view.stage, event) {
        (StageView::Identifying, LockEventView::SelfRead(read)) => match read {
            Err(reason) => refused(
                view,
                LockErrorView::Io {
                    operation: "read process identity from"@,
                    path: record_path(view.pid),
                    reason,
                },
            ),
            Ok(contents) => identified(view, contents),
        },
        (StageView::Creating { owner, .. }, LockEventView::Created { identity }) =>
            AcquisitionView { stage: StageView::Taken { owner, identity }, ..view },
        (StageView::Creating { owner, recovering }, LockEventView::Exists) => if recovering {
            doubtful(view, "lock changed while recovering stale ownership"@)
        } else {
            AcquisitionView { stage: StageView::Reading { owner }, ..view }
        },
        (StageView::Creating { .. }, LockEventView::NotCreated { operation, reason }) => refused(
            view,
            LockErrorView::Io { operation, path: view.path, reason },
        ),
        (StageView::Reading { owner }, LockEventView::LockRead { contents, identity }) =>
            match recorded_owner(contents) {
                Err(reason) => doubtful(view, reason),
                Ok(found) => AcquisitionView {
                    stage: StageView::Probing {
                        owner,
                        held: LockSnapshot { owner: found, identity },
                    },
                    ..view
                },
            },
        (
            StageView::Reading { .. } | StageView::Rereading { .. },
            LockEventView::LockUnread { operation, reason },
        ) => refused(view, LockErrorView::Io { operation, path: view.path, reason }),
        (StageView::Probing { owner, held }, LockEventView::ProcessMissing) => probed(
            view,
            owner,
            held,
            None,
        ),
        (StageView::Probing { owner, held }, LockEventView::ProcessRead { contents }) =>
            match recorded_start(contents) {
                Err(reason) => doubtful(
                    view,
                    "invalid "@ + record_path(held.owner.pid) + ": "@ + reason,
                ),
                Ok(start_time) => probed(view, owner, held, Some(start_time)),
            },
        (StageView::Probing { held, .. }, LockEventView::ProcessUnread { reason }) => doubtful(
            view,
            "cannot read "@ + record_path(held.owner.pid) + ": "@ + reason,
        ),
        (StageView::Rereading { owner, held }, LockEventView::LockRead { contents, identity }) =>
            match recorded_owner(contents) {
                Err(reason) => doubtful(view, reason),
                Ok(found) => if found == held.owner && identity == held.identity {
                    AcquisitionView { stage: StageView::Removing { owner, held }, ..view }
                } else {
                    doubtful(view, "lock changed while verifying stale ownership"@)
                },
            },
        (StageView::Removing { owner, .. }, LockEventView::Removed(removed)) => match removed {
            Ok(_) => AcquisitionView {
                stage: StageView::Creating { owner, recovering: true },
                ..view
            },
            Err(reason) => refused(
                view,
                LockErrorView::Io { operation: "remove stale"@, path: view.path, reason },
            ),
        },
        _ => view,
    }
}

/// What is to be done next in this stage.
pub open spec fn next_action(stage: StageView) -> LockAction {
    match stage {
        StageView::Identifying => LockAction::ReadSelf,
        StageView::Creating { owner, .. } => LockAction::Create { owner },
        StageView::Reading { .. } => LockAction::Read,
        StageView::Probing { held, .. } => LockAction::ReadProcess { pid: held.owner.pid },
        StageView::Rereading { .. } => LockAction::ReadGuarded,
        StageView::Removing { .. } => LockAction::Remove,
        StageView::Taken { .. } | StageView::Refused { .. } => LockAction::Return,
    }
}

/// Where the record of a process is.
pub fn proc_path(pid: u32) -> (path: String)
    ensures
        path@ == record_path(pid),
{
    let mut path: String = "/proc/".to_owned();
    path.append(write_decimal(pid as u64).as_str());
    path.append("/stat");
    path
}

/// What is wrong with the record of a process.
fn describe_record(prefix: &str, pid: u32, reason: &str) -> (description: String)
    ensures
        description@ == prefix@ + record_path(pid) + ": "@ + reason@,
{
    let mut description: String = prefix.to_owned();
    description.append(proc_path(pid).as_str());
    description.append(": ");
    description.append(reason);
    description
}

impl Acquisition {
    /// The taking, by the process with this number, of the lock of `output`.
    pub fn new(output: &str, pid: u32) -> (acquisition: Acquisition)
        ensures
            acquisition@ == (AcquisitionView {
                path: output@ + ".rustypac.lock"@,
                pid,
                stage: StageView::Identifying,
            }),
    {
        Acquisition { path: lock_path(output), pid, stage: Stage::Identifying }
    }

    /// Where the lock is.
    pub fn path(&self) -> (path: &str)
        ensures
            path@ == self@.path,
    {
        self.path.as_str()
    }

    /// What is to be done next.
    pub fn action(&self) -> (action: LockAction)
        ensures
            action == next_action(self@.stage),
    {
        match &self.stage {
            Stage::Identifying => LockAction::ReadSelf,
            Stage::Creating { owner, .. } => LockAction::Create { owner: *owner },
            Stage::Reading { .. } => LockAction::Read,
            Stage::Probing { held, .. } => LockAction::ReadProcess { pid: held.owner.pid },
            Stage::Rereading { .. } => LockAction::ReadGuarded,
            Stage::Removing { .. } => LockAction::Remove,
            Stage::Taken { .. } | Stage::Refused { .. } => LockAction::Return,
        }
    }

    /// The lock as this process holds it, or why it does not; none while that is open.
    pub fn outcome(self) -> (outcome: Option<Result<LockSnapshot, LockError>>)
        ensures
            match self@.stage {
                StageView::Taken { owner, identity } => outcome == Some(
                    Ok::<LockSnapshot, LockError>(LockSnapshot { owner, identity }),
                ),
                StageView::Refused { error } => outcome matches Some(Err(found)) && found@
                    == error,
                _ => outcome is None,
            },
    {
        match self.stage {
            Stage::Taken { owner, identity } => Some(Ok(LockSnapshot { owner, identity })),
            Stage::Refused { error } => Some(Err(error)),
            _ => None,
        }
    }

    /// Refuses the lock because a file cannot be read or written.
    fn refuse_io(&mut self, operation: &'static str, path: String, reason: String)
        ensures
            final(self)@ == refused(
                old(self)@,
                LockErrorView::Io { operation: operation@, path: path@, reason: reason@ },
            ),
    {
        self.stage = Stage::Refused { error: LockError::Io { operation, path, reason } };
    }

    /// Refuses the lock because it cannot be told who holds it.
    fn doubt(&mut self, reason: String)
        ensures
            final(self)@ == doubtful(old(self)@, reason@),
    {
        let path: String = self.path.clone();
        self.stage = Stage::Refused { error: LockError::Unverifiable { path, reason } };
    }

    /// Goes on once this process knows who it is.
    fn identify(&mut self, contents: &str)
        ensures
            final(self)@ == identified(old(self)@, contents@),
    {
        match parse_proc_start_time(contents) {
            Err(reason) => {
                let path: String = proc_path(self.pid);
                self.stage = Stage::Refused { error: LockError::Unverifiable { path, reason } };
            },
            Ok(start_time) => {
                let owner: OwnerRecord = OwnerRecord { pid: self.pid, start_time };
                self.stage = Stage::Creating { owner, recovering: false };
            },
        }
    }

    /// Goes on once the process that holds the lock was looked for.
    fn probe(&mut self, owner: OwnerRecord, held: LockSnapshot, start: Option<u64>)
        ensures
            final(self)@ == probed(old(self)@, owner, held, start),
    {
        let live: bool = match start {
            Some(start_time) => start_time == held.owner.start_time,
            None => false,
        };
        self.stage = if live {
            Stage::Refused { error: LockError::Held { pid: held.owner.pid } }
        } else {
            Stage::Rereading { owner, held }
        };
    }

    /// Goes on once a lock was read for the first time.
    fn read(&mut self, owner: OwnerRecord, contents: &str, identity: FileIdentity)
        requires
            old(self)@.stage == (StageView::Reading { owner }),
        ensures
            final(self)@ == next(
                old(self)@,
                LockEventView::LockRead { contents: contents@, identity },
            ),
    {
        match parse_owner_record(contents) {
            Err(reason) => self.doubt(reason),
            Ok(found) => {
                let held: LockSnapshot = LockSnapshot { owner: found, identity };
                self.stage = Stage::Probing { owner, held };
            },
        }
    }

    /// Goes on once a lock that no live process holds was read again.
    fn reread(
        &mut self,
        owner: OwnerRecord,
        held: LockSnapshot,
        contents: &str,
        identity: FileIdentity,
    )
        requires
            old(self)@.stage == (StageView::Rereading { owner, held }),
        ensures
            final(self)@ == next(
                old(self)@,
                LockEventView::LockRead { contents: contents@, identity },
            ),
    {
        match parse_owner_record(contents) {
            Err(reason) => self.doubt(reason),
            Ok(found) => {
                if found == held.owner && identity == held.identity {
                    self.stage = Stage::Removing { owner, held };
                } else {
                    self.doubt("lock changed while verifying stale ownership".to_owned());
                }
            },
        }
    }

    /// Goes on after `event` has happened. An event that the stage does not wait for changes
    /// nothing.
    pub fn handle(&mut self, event: LockEvent)
        ensures
            final(self)@ == next(old(self)@, event@),
    {
        match (&self.stage, event) {
            (Stage::Identifying, LockEvent::SelfRead(read)) => match read {
                Err(reason) => {
                    let path: String = proc_path(self.pid);
                    self.refuse_io("read process identity from", path, reason);
                },
                Ok(contents) => self.identify(contents.as_str()),
            },
            (Stage::Creating { owner, .. }, LockEvent::Created { identity }) => {
                let owner: OwnerRecord = *owner;
                self.stage = Stage::Taken { owner, identity };
            },
            (Stage::Creating { owner, recovering }, LockEvent::Exists) => {
                let owner: OwnerRecord = *owner;
                if *recovering {
                    self.doubt("lock changed while recovering stale ownership".to_owned());
                } else {
                    self.stage = Stage::Reading { owner };
                }
            },
            (Stage::Creating { .. }, LockEvent::NotCreated { operation, reason }) => {
                let path: String = self.path.clone();
                self.refuse_io(operation, path, reason);
            },
            (Stage::Reading { owner }, LockEvent::LockRead { contents, identity }) => {
                let owner: OwnerRecord = *owner;
                self.read(owner, contents.as_str(), identity);
            },
            (Stage::Reading { .. }, LockEvent::LockUnread { operation, reason }) => {
                let path: String = self.path.clone();
                self.refuse_io(operation, path, reason);
            },
            (Stage::Rereading { .. }, LockEvent::LockUnread { operation, reason }) => {
                let path: String = self.path.clone();
                self.refuse_io(operation, path, reason);
            },
            (Stage::Probing { owner, held }, LockEvent::ProcessMissing) => {
                let owner: OwnerRecord = *owner;
                let held: LockSnapshot = *held;
                self.probe(owner, held, None);
            },
            (Stage::Probing { owner, held }, LockEvent::ProcessRead { contents }) => {
                let owner: OwnerRecord = *owner;
                let held: LockSnapshot = *held;
                match parse_proc_start_time(contents.as_str()) {
                    Err(reason) => {
                        let description: String = describe_record(
                            "invalid ",
                            held.owner.pid,
                            reason.as_str(),
                        );
                        self.doubt(description);
                    },
                    Ok(start_time) => self.probe(owner, held, Some(start_time)),
                }
            },
            (Stage::Probing { held, .. }, LockEvent::ProcessUnread { reason }) => {
                let description: String = describe_record(
                    "cannot read ",
                    held.owner.pid,
                    reason.as_str(),
                );
                self.doubt(description);
            },
            (Stage::Rereading { owner, held }, LockEvent::LockRead { contents, identity }) => {
                let owner: OwnerRecord = *owner;
                let held: LockSnapshot = *held;
                self.reread(owner, held, contents.as_str(), identity);
            },
            (Stage::Removing { owner, .. }, LockEvent::Removed(removed)) => {
                let owner: OwnerRecord = *owner;
                match removed {
                    Ok(_) => {
                        self.stage = Stage::Creating { owner, recovering: true };
                    },
                    Err(reason) => {
                        let path: String = self.path.clone();
                        self.refuse_io("remove stale", path, reason);
                    },
                }
            },
            _ => {},
        }
    }
}

/// A lock that is given up is removed only if it is still the one that was taken: `contents`
/// and `read` are what was last read at its path, and of which file, and `current` is the file
/// that is there now.
pub open spec fn may_be_released(
    held: LockSnapshot,
    contents: Seq<char>,
    read: FileIdentity,
    current: FileIdentity,
) -> bool {
    recorded_owner(contents) == Ok::<OwnerRecord, Seq<char>>(held.owner) && read == held.identity
        && current == held.identity
}

/// A lock that is given up may be removed, being the one that was taken.
pub fn may_release(
    held: LockSnapshot,
    contents: &str,
    read: FileIdentity,
    current: FileIdentity,
) -> (release: bool)
    ensures
        release == may_be_released(held, contents@, read, current),
{
    match parse_owner_record(contents) {
        Ok(owner) => owner == held.owner && read == held.identity && current == held.identity,
        Err(_) => false,
    }
}

} // verus!

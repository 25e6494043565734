//! What holds of two takings of one lock at the same time.

use vstd::prelude::*;

use crate::lock;
use crate::lock::{
    AcquisitionView, FileIdentity, LockAction, LockErrorView, LockEventView, OwnerRecord,
    StageView,
};
use crate::lock_laws;

verus! {

/// The file of a lock.
pub ghost struct LockFile {
    pub contents: Seq<char>,
    pub identity: FileIdentity,
}

/// One of two who take a lock.
pub ghost struct Side {
    pub taking: AcquisitionView,
    /// The file that it has created and not written yet.
    pub opened: Option<FileIdentity>,
}

/// The file of a lock, if there is one, and the two who take it.
pub ghost struct World {
    pub file: Option<LockFile>,
    pub mine: Side,
    pub other: Side,
}

/// The processes of the two sides, which stay alive; they may be one process.
pub ghost struct Live {
    pub mine: OwnerRecord,
    pub other: OwnerRecord,
}

/// The same world, as the other side sees it.
pub open spec fn swapped(world: World) -> World {
    World { file: world.file, mine: world.other, other: world.mine }
}

/// The same processes, as the other side sees them.
pub open spec fn exchanged(live: Live) -> Live {
    Live { mine: live.other, other: live.mine }
}

/// The owner is the process of one of the sides.
pub open spec fn is_live(live: Live, owner: OwnerRecord) -> bool {
    owner == live.mine || owner == live.other
}

/// A record of the process with this number gives the time at which the process started, if it
/// is that of one of the sides and can be read at all.
pub open spec fn is_truthful(live: Live, pid: u32, contents: Seq<char>) -> bool {
    lock::recorded_start(contents) matches Ok(start) ==> {
        &&& pid == live.mine.pid ==> start == live.mine.start_time
        &&& pid == live.other.pid ==> start == live.other.start_time
    }
}

/// My side creates the lock, which it can only where there is none. It is empty at first.
pub open spec fn opens(before: World, after: World, identity: FileIdentity) -> bool {
    &&& before.mine.taking.stage is Creating
    &&& before.mine.opened is None
    &&& before.file is None
    &&& after == (World {
        file: Some(LockFile { contents: seq![], identity }),
        mine: Side { opened: Some(identity), ..before.mine },
        ..before
    })
}

/// The event is what the action that is due on my side can come to, with this file before and
/// that one after it. While the other side keeps recoveries out, no guarded read is done.
pub open spec fn may_come(
    live: Live,
    before: World,
    after: Option<LockFile>,
    event: LockEventView,
) -> bool {
    match (lock::next_action(before.mine.taking.stage), event) {
        (LockAction::ReadSelf, LockEventView::SelfRead(read)) => {
            &&& after == before.file
            &&& read matches Ok(contents) ==> is_truthful(live, live.mine.pid, contents)
        },
        (LockAction::Create { owner }, LockEventView::Created { identity }) => {
            &&& before.mine.opened == Some(identity)
            &&& after == Some(LockFile { contents: lock::record_text(owner), identity })
        },
        (LockAction::Create { .. }, LockEventView::Exists) => {
            &&& before.mine.opened is None
            &&& before.file is Some
            &&& after == before.file
        },
        (LockAction::Create { .. }, LockEventView::NotCreated { .. }) => {
            &&& before.mine.opened is None ==> after == before.file
            &&& before.mine.opened matches Some(identity) ==> (after matches Some(file)
                ==> file.identity == identity)
        },
        (LockAction::Read, LockEventView::LockRead { contents, identity }) => {
            &&& before.file == Some(LockFile { contents, identity })
            &&& after == before.file
        },
        (LockAction::ReadGuarded, LockEventView::LockRead { contents, identity }) => {
            &&& before.file == Some(LockFile { contents, identity })
            &&& after == before.file
            &&& !(before.other.taking.stage is Removing)
        },
        (
            LockAction::Read | LockAction::ReadGuarded,
            LockEventView::LockUnread { .. },
        ) => after == before.file,
        (LockAction::ReadProcess { pid }, LockEventView::ProcessMissing) => {
            &&& after == before.file
            &&& pid != live.mine.pid
            &&& pid != live.other.pid
        },
        (LockAction::ReadProcess { pid }, LockEventView::ProcessRead { contents }) => {
            &&& after == before.file
            &&& is_truthful(live, pid, contents)
        },
        (LockAction::ReadProcess { .. }, LockEventView::ProcessUnread { .. }) => after
            == before.file,
        (LockAction::Remove, LockEventView::Removed(removed)) => after == (if removed is Ok {
            None
        } else {
            before.file
        }),
        _ => false,
    }
}

/// The event happens on my side.
pub open spec fn happens(live: Live, before: World, after: World, event: LockEventView) -> bool {
    &&& may_come(live, before, after.file, event)
    &&& after.mine == (Side { taking: lock::next(before.mine.taking, event), opened: None })
    &&& after.other == before.other
}

/// The event is no failure: what is there can be read and removed, and where the lock names
/// `gone`, that process is found to be gone.
pub open spec fn goes_well(before: World, gone: OwnerRecord, event: LockEventView) -> bool {
    match event {
        LockEventView::SelfRead(read) => read matches Ok(contents) && lock::recorded_start(
            contents,
        ) is Ok,
        LockEventView::NotCreated { .. } => false,
        LockEventView::LockUnread { .. } => before.file is None,
        LockEventView::ProcessUnread { .. } => false,
        LockEventView::Removed(removed) => removed is Ok,
        LockEventView::ProcessMissing | LockEventView::ProcessRead { .. } =>
            before.mine.taking.stage matches StageView::Probing { held, .. } && held.owner == gone
                ==> lock_laws::shows_absence(event, gone),
        _ => true,
    }
}

/// My side makes one step.
pub open spec fn steps(live: Live, before: World, after: World) -> bool {
    ||| exists|identity: FileIdentity| opens(before, after, identity)
    ||| exists|event: LockEventView| happens(live, before, after, event)
}

/// My side makes one step that is no failure.
pub open spec fn steps_well(live: Live, gone: OwnerRecord, before: World, after: World) -> bool {
    ||| exists|identity: FileIdentity| opens(before, after, identity)
    ||| exists|event: LockEventView|
        #[trigger] happens(live, before, after, event) && goes_well(before, gone, event)
}

/// Each world follows from the one before it by a step of one of the sides.
pub open spec fn is_history(live: Live, worlds: Seq<World>) -> bool {
    forall|i: int|
        0 < i < worlds.len() ==> steps(live, worlds[i - 1], #[trigger] worlds[i]) || steps(
            exchanged(live),
            swapped(worlds[i - 1]),
            swapped(worlds[i]),
        )
}

/// Each world follows from the one before it by a step of one of the sides that is no failure.
pub open spec fn is_smooth_history(live: Live, gone: OwnerRecord, worlds: Seq<World>) -> bool {
    forall|i: int|
        0 < i < worlds.len() ==> steps_well(live, gone, worlds[i - 1], #[trigger] worlds[i])
            || steps_well(exchanged(live), gone, swapped(worlds[i - 1]), swapped(worlds[i]))
}

/// A taking by this process has yet to begin.
pub open spec fn has_yet_to_begin(side: Side, owner: OwnerRecord) -> bool {
    side.taking.stage is Identifying && side.taking.pid == owner.pid && side.opened is None
}

/// Neither side has begun, whatever file there is. Processes that run at the same time have
/// different numbers.
pub open spec fn is_beginning(live: Live, world: World) -> bool {
    &&& has_yet_to_begin(world.mine, live.mine)
    &&& has_yet_to_begin(world.other, live.other)
    &&& live.mine.pid == live.other.pid ==> live.mine == live.other
}

/// What holds of my side at all times.
spec fn fits(live: Live, world: World) -> bool {
    let stage = world.mine.taking.stage;
    &&& world.mine.taking.pid == live.mine.pid
    &&& lock_laws::taker(stage) matches Some(owner) ==> owner == live.mine
    &&& stage matches StageView::Rereading { held, .. } ==> !is_live(live, held.owner)
    &&& stage matches StageView::Removing { held, .. } ==> {
        &&& !is_live(live, held.owner)
        &&& world.file matches Some(file) && lock::recorded_owner(file.contents) == Ok::<
            OwnerRecord,
            Seq<char>,
        >(held.owner)
        &&& !(world.other.taking.stage is Removing)
    }
    &&& stage matches StageView::Taken { identity, .. } ==> {
        &&& world.file == Some(LockFile { contents: lock::record_text(live.mine), identity })
        &&& !(world.other.taking.stage is Taken)
    }
    &&& world.mine.opened matches Some(identity) ==> {
        &&& stage is Creating
        &&& world.file == Some(LockFile { contents: seq![], identity })
        &&& world.other.opened is None
    }
}

/// What holds of both sides at all times.
spec fn both_fit(live: Live, world: World) -> bool {
    &&& fits(live, world)
    &&& fits(exchanged(live), swapped(world))
    &&& live.mine.pid == live.other.pid ==> live.mine == live.other
}

/// An empty lock names no owner.
proof fn lemma_empty_record()
    ensures
        lock::recorded_owner(seq![]) is Err,
{
}

/// A step of my side keeps what holds of both.
proof fn lemma_event_fits(live: Live, before: World, after: World, event: LockEventView)
    requires
        both_fit(live, before),
        happens(live, before, after, event),
    ensures
        both_fit(live, after),
{
    lemma_empty_record();
    lock_laws::reading_a_record_gives_back_the_owner(live.mine);
    lock_laws::reading_a_record_gives_back_the_owner(live.other);
}

/// A step of my side keeps what holds of both.
proof fn lemma_step_fits(live: Live, before: World, after: World)
    requires
        both_fit(live, before),
        steps(live, before, after),
    ensures
        both_fit(live, after),
{
    if exists|identity: FileIdentity| opens(before, after, identity) {
    } else {
        let event = choose|event: LockEventView| happens(live, before, after, event);
        lemma_event_fits(live, before, after, event);
    }
}

/// What holds of both sides holds in every world of a history.
proof fn lemma_history_fits(live: Live, worlds: Seq<World>, index: int)
    requires
        is_history(live, worlds),
        0 <= index < worlds.len(),
        is_beginning(live, worlds[0]),
    ensures
        both_fit(live, worlds[index]),
    decreases index,
{
    if index > 0 {
        lemma_history_fits(live, worlds, index - 1);
        if steps(live, worlds[index - 1], worlds[index]) {
            lemma_step_fits(live, worlds[index - 1], worlds[index]);
        } else {
            lemma_step_fits(
                exchanged(live),
                swapped(worlds[index - 1]),
                swapped(worlds[index]),
            );
        }
    }
}

/// Two who take one lock never both have it, in whatever order their steps come, whatever file
/// was there before, and also if they belong to one process. Whoever has it, the file is the
/// one that they created, with their record.
pub proof fn two_takings_never_both_succeed(live: Live, worlds: Seq<World>, index: int)
    requires
        is_history(live, worlds),
        is_beginning(live, worlds[0]),
        0 <= index < worlds.len(),
    ensures
        ({
            let world = worlds[index];
            &&& !(world.mine.taking.stage is Taken && world.other.taking.stage is Taken)
            &&& world.mine.taking.stage matches StageView::Taken { owner, identity } ==> world.file
                == Some(LockFile { contents: lock::record_text(owner), identity })
            &&& world.other.taking.stage matches StageView::Taken { owner, identity }
                ==> world.file == Some(LockFile { contents: lock::record_text(owner), identity })
        }),
{
    lemma_history_fits(live, worlds, index);
}

/// A lock that one side has stays as it is, whatever the other side does.
pub proof fn a_lock_that_is_taken_stays(live: Live, worlds: Seq<World>, from: int, index: int)
    requires
        is_history(live, worlds),
        is_beginning(live, worlds[0]),
        0 <= from <= index < worlds.len(),
        worlds[from].mine.taking.stage is Taken || worlds[from].other.taking.stage is Taken,
    ensures
        worlds[index].file == worlds[from].file,
        worlds[from].mine.taking.stage is Taken ==> worlds[index].mine == worlds[from].mine,
        worlds[from].other.taking.stage is Taken ==> worlds[index].other == worlds[from].other,
    decreases index,
{
    if index > from {
        a_lock_that_is_taken_stays(live, worlds, from, index - 1);
        lemma_history_fits(live, worlds, index - 1);
        if steps(live, worlds[index - 1], worlds[index]) {
            lemma_taken_stays(live, worlds[index - 1], worlds[index]);
        } else {
            lemma_taken_stays(
                exchanged(live),
                swapped(worlds[index - 1]),
                swapped(worlds[index]),
            );
        }
    }
}

/// A step of my side leaves a lock that either side has.
proof fn lemma_taken_stays(live: Live, before: World, after: World)
    requires
        both_fit(live, before),
        steps(live, before, after),
        before.mine.taking.stage is Taken || before.other.taking.stage is Taken,
    ensures
        after.file == before.file,
        after.other == before.other,
        before.mine.taking.stage is Taken ==> after.mine == before.mine,
{
    lemma_empty_record();
    lock_laws::reading_a_record_gives_back_the_owner(live.mine);
    lock_laws::reading_a_record_gives_back_the_owner(live.other);
    if exists|identity: FileIdentity| opens(before, after, identity) {
    } else {
        let event = choose|event: LockEventView| happens(live, before, after, event);
        assert(happens(live, before, after, event));
    }
}

/// Who comes while another has the lock, and can read the lock and the record of the process
/// that it names, is told that this process holds it.
pub proof fn a_later_taking_finds_the_lock_held(
    live: Live,
    worlds: Seq<World>,
    index: int,
    myself: Seq<char>,
    contents: Seq<char>,
)
    requires
        is_history(live, worlds),
        is_beginning(live, worlds[0]),
        0 <= index < worlds.len(),
        worlds[index].other.taking.stage is Taken,
        worlds[index].mine.taking.stage is Identifying,
        lock::recorded_start(myself) is Ok,
        lock::recorded_start(contents) == Ok::<u64, Seq<char>>(live.other.start_time),
    ensures
        ({
            let world = worlds[index];
            let read = LockEventView::LockRead {
                contents: world.file->0.contents,
                identity: world.file->0.identity,
            };
            let created = lock::next(world.mine.taking, LockEventView::SelfRead(Ok(myself)));
            let found = lock::next(created, LockEventView::Exists);
            let probing = lock::next(found, read);
            let settled = lock::next(probing, LockEventView::ProcessRead { contents });
            &&& lock::next_action(probing.stage) == (LockAction::ReadProcess {
                pid: live.other.pid,
            })
            &&& settled.stage == (StageView::Refused {
                error: LockErrorView::Held { pid: live.other.pid },
            })
        }),
{
    lemma_history_fits(live, worlds, index);
    lock_laws::reading_a_record_gives_back_the_owner(live.other);
}

/// The side can still create the lock.
spec fn may_create(side: Side) -> bool {
    side.taking.stage is Identifying || side.taking.stage is Creating
}

/// The side has created the lock.
spec fn has_created(side: Side) -> bool {
    side.taking.stage is Taken || side.opened is Some
}

/// The side is about to find that `gone` left this file.
spec fn is_on_the_way(side: Side, file: LockFile, gone: OwnerRecord) -> bool {
    &&& side.opened is None
    &&& match side.taking.stage {
        StageView::Identifying | StageView::Reading { .. } => true,
        StageView::Creating { recovering, .. } => !recovering,
        StageView::Probing { held, .. } | StageView::Rereading { held, .. } | StageView::Removing {
            held,
            ..
        } => held.owner == gone && held.identity == file.identity,
        _ => false,
    }
}

/// One side has the lock, or one of them will.
spec fn will_be_taken(world: World, gone: OwnerRecord) -> bool {
    ||| has_created(world.mine) || has_created(world.other)
    ||| world.file is None && (may_create(world.mine) || may_create(world.other))
    ||| world.file matches Some(file) && names(file, gone) && is_on_the_way(world.mine, file, gone)
        && is_on_the_way(world.other, file, gone)
}

/// The file names this owner.
pub open spec fn names(file: LockFile, owner: OwnerRecord) -> bool {
    lock::recorded_owner(file.contents) == Ok::<OwnerRecord, Seq<char>>(owner)
}

/// A step of my side that is no failure keeps it so that the lock will be taken.
proof fn lemma_step_well(live: Live, gone: OwnerRecord, before: World, after: World)
    requires
        both_fit(live, before),
        will_be_taken(before, gone),
        steps_well(live, gone, before, after),
    ensures
        both_fit(live, after),
        will_be_taken(after, gone),
{
    lemma_step_fits(live, before, after);
    if exists|identity: FileIdentity| opens(before, after, identity) {
    } else {
        let event = choose|event: LockEventView|
            #[trigger] happens(live, before, after, event) && goes_well(before, gone, event);
        assert(happens(live, before, after, event) && goes_well(before, gone, event));
    }
}

/// Along a history without failures it stays so that the lock will be taken.
proof fn lemma_smooth_history(live: Live, gone: OwnerRecord, worlds: Seq<World>, index: int)
    requires
        is_smooth_history(live, gone, worlds),
        is_beginning(live, worlds[0]),
        worlds[0].file matches Some(file) ==> names(file, gone),
        0 <= index < worlds.len(),
    ensures
        both_fit(live, worlds[index]),
        will_be_taken(worlds[index], gone),
    decreases index,
{
    if index > 0 {
        lemma_smooth_history(live, gone, worlds, index - 1);
        let before = worlds[index - 1];
        let after = worlds[index];
        if steps_well(live, gone, before, after) {
            lemma_step_well(live, gone, before, after);
        } else {
            lemma_step_well(exchanged(live), gone, swapped(before), swapped(after));
        }
    }
}

/// Of two who take a lock that is not there, or that a process left that is gone, exactly one
/// has it in the end, in whatever order their steps come, as long as none of them fails.
pub proof fn exactly_one_of_two_takings_succeeds(
    live: Live,
    gone: OwnerRecord,
    worlds: Seq<World>,
)
    requires
        worlds.len() > 0,
        is_smooth_history(live, gone, worlds),
        is_beginning(live, worlds[0]),
        worlds[0].file matches Some(file) ==> names(file, gone),
        lock::next_action(worlds.last().mine.taking.stage) == LockAction::Return,
        lock::next_action(worlds.last().other.taking.stage) == LockAction::Return,
    ensures
        worlds.last().mine.taking.stage is Taken <==> !(worlds.last().other.taking.stage is Taken),
{
    lemma_smooth_history(live, gone, worlds, worlds.len() - 1);
}

} // verus!

//! What holds of every lock.

use vstd::prelude::*;
use vstd::string::*;

use crate::lock;
use crate::lock::{
    Acquisition, AcquisitionView, FileIdentity, LockAction, LockError, LockErrorView,
    LockEventView, LockSnapshot, OwnerRecord, StageView,
};
use crate::numbers;
use crate::text;

verus! {

/// Words without white space, with white space behind each, are the fields of their text.
proof fn lemma_fields_of_words(first: Seq<char>, rest: Seq<char>, space: char)
    requires
        first.len() > 0,
        numbers::all_digits(first),
        numbers::is_white_space(space),
    ensures
        numbers::fields(first + seq![space] + rest) == seq![first] + numbers::fields(rest),
{
    let all = first + seq![space] + rest;
    assert forall|i: int| 0 <= i < first.len() implies !numbers::is_white_space(
        #[trigger] all[i],
    ) by {
        assert(numbers::is_digit(first[i]));
        assert(all[i] == first[i]);
    }
    numbers::lemma_first_word_is(all, first.len() as int);
    assert(all.take(first.len() as int) =~= first);
    let behind = all.skip(first.len() as int);
    assert(behind[0] == space);
    assert(behind.drop_first() =~= rest);
    assert(numbers::fields(behind) == numbers::fields(rest));
}

/// Reading the record of an owner gives back the owner.
pub proof fn reading_a_record_gives_back_the_owner(owner: OwnerRecord)
    ensures
        lock::recorded_owner(lock::record_text(owner)) == Ok::<OwnerRecord, Seq<char>>(owner),
{
    let pid = numbers::decimal(owner.pid as nat);
    let start = numbers::decimal(owner.start_time as nat);
    let contents = lock::record_text(owner);
    reveal_strlit(" ");
    reveal_strlit("\n");
    numbers::decimal_writes_its_value(owner.pid as nat);
    numbers::decimal_writes_its_value(owner.start_time as nat);
    numbers::reading_undoes_writing(owner.pid as nat, u32::MAX as nat);
    numbers::reading_undoes_writing(owner.start_time as nat, u64::MAX as nat);
    let rest = start + seq!['\n'] + seq![];
    assert(contents =~= pid + seq![' '] + rest);
    lemma_fields_of_words(pid, rest, ' ');
    lemma_fields_of_words(start, seq![], '\n');
    assert(numbers::fields(Seq::<char>::empty()) =~= seq![]);
    assert(numbers::fields(contents) =~= seq![pid, start]);
}

/// Taking the lock once all of `events` have happened, the first one first.
pub open spec fn course(view: AcquisitionView, events: Seq<LockEventView>) -> AcquisitionView
    decreases events.len(),
{
    if events.len() == 0 {
        view
    } else {
        lock::next(course(view, events.drop_last()), events.last())
    }
}

/// The taking of a lock that has yet to begin.
pub open spec fn beginning(output: Seq<char>, pid: u32) -> AcquisitionView {
    AcquisitionView { path: output + ".rustypac.lock"@, pid, stage: StageView::Identifying }
}

/// The event is that the lock was read, and named `held`.
pub open spec fn reads(event: LockEventView, held: LockSnapshot) -> bool {
    event matches LockEventView::LockRead { contents, identity } && identity == held.identity
        && lock::recorded_owner(contents) == Ok::<OwnerRecord, Seq<char>>(held.owner)
}

/// The event is that no live process is `owner`: there is none with its number, or the one
/// that there is started at another time.
pub open spec fn shows_absence(event: LockEventView, owner: OwnerRecord) -> bool {
    match event {
        LockEventView::ProcessMissing => true,
        LockEventView::ProcessRead { contents } => lock::recorded_start(contents) matches Ok(start)
            && start != owner.start_time,
        _ => false,
    }
}

/// The lock was read to name `held`, and then its owner was found to be gone.
pub open spec fn owner_is_gone(events: Seq<LockEventView>, held: LockSnapshot) -> bool {
    exists|i: int, j: int|
        0 <= i < j < events.len() && reads(#[trigger] events[i], held) && shows_absence(
            #[trigger] events[j],
            held.owner,
        )
}

/// The lock was read to name `held`, then its owner was found to be gone, and then the lock
/// was read to name `held` still.
pub open spec fn is_stale(events: Seq<LockEventView>, held: LockSnapshot) -> bool {
    exists|k: int|
        0 <= k < events.len() && reads(#[trigger] events[k], held) && owner_is_gone(
            events.take(k),
            held,
        )
}

/// The lock was read to name `held`.
pub open spec fn was_read(events: Seq<LockEventView>, held: LockSnapshot) -> bool {
    exists|i: int| 0 <= i < events.len() && reads(#[trigger] events[i], held)
}

/// This process was found to be `owner`.
pub open spec fn is_self(events: Seq<LockEventView>, pid: u32, owner: OwnerRecord) -> bool {
    owner.pid == pid && exists|i: int|
        0 <= i < events.len() && (#[trigger] events[i] matches LockEventView::SelfRead(Ok(contents))
            && lock::recorded_start(contents) == Ok::<u64, Seq<char>>(owner.start_time))
}

/// The owner on whose behalf the lock is taken, once it is known.
pub open spec fn taker(stage: StageView) -> Option<OwnerRecord> {
    match stage {
        StageView::Creating { owner, .. } => Some(owner),
        StageView::Reading { owner } => Some(owner),
        StageView::Probing { owner, .. } => Some(owner),
        StageView::Rereading { owner, .. } => Some(owner),
        StageView::Removing { owner, .. } => Some(owner),
        StageView::Taken { owner, .. } => Some(owner),
        _ => None,
    }
}

/// What the events so far must hold for the taking of a lock to be where it is.
spec fn is_accounted_for(view: AcquisitionView, events: Seq<LockEventView>) -> bool {
    &&& taker(view.stage) matches Some(owner) ==> is_self(events, view.pid, owner)
    &&& view.stage matches StageView::Probing { held, .. } ==> was_read(events, held)
    &&& view.stage matches StageView::Rereading { held, .. } ==> owner_is_gone(events, held)
    &&& view.stage matches StageView::Removing { held, .. } ==> is_stale(events, held)
    &&& view.stage matches StageView::Taken { identity, .. } ==> events.contains(
        LockEventView::Created { identity },
    )
}

/// What earlier events hold, more events hold.
proof fn lemma_more_events(
    events: Seq<LockEventView>,
    last: LockEventView,
    held: LockSnapshot,
    pid: u32,
    owner: OwnerRecord,
)
    ensures
        was_read(events, held) ==> was_read(events.push(last), held),
        owner_is_gone(events, held) ==> owner_is_gone(events.push(last), held),
        is_stale(events, held) ==> is_stale(events.push(last), held),
        is_self(events, pid, owner) ==> is_self(events.push(last), pid, owner),
{
    let more = events.push(last);
    assert forall|i: int| 0 <= i < events.len() implies #[trigger] events[i] == more[i] by {}
    if was_read(events, held) {
        let i = choose|i: int| 0 <= i < events.len() && reads(#[trigger] events[i], held);
        assert(reads(more[i], held));
    }
    if owner_is_gone(events, held) {
        let (i, j) = choose|i: int, j: int|
            0 <= i < j < events.len() && reads(#[trigger] events[i], held) && shows_absence(
                #[trigger] events[j],
                held.owner,
            );
        assert(reads(more[i], held) && shows_absence(more[j], held.owner));
    }
    if is_stale(events, held) {
        let k = choose|k: int|
            0 <= k < events.len() && reads(#[trigger] events[k], held) && owner_is_gone(
                events.take(k),
                held,
            );
        assert(more.take(k) =~= events.take(k));
        assert(reads(more[k], held));
    }
    if is_self(events, pid, owner) {
        let i = choose|i: int|
            0 <= i < events.len() && (#[trigger] events[i] matches LockEventView::SelfRead(
                Ok(contents),
            ) && lock::recorded_start(contents) == Ok::<u64, Seq<char>>(owner.start_time));
        assert(more[i] == events[i]);
    }
}

/// A lock whose owner was found to be gone after it was read is stale.
proof fn lemma_becomes_stale(
    events: Seq<LockEventView>,
    last: LockEventView,
    held: LockSnapshot,
)
    ensures
        was_read(events, held) && shows_absence(last, held.owner) ==> owner_is_gone(
            events.push(last),
            held,
        ),
        owner_is_gone(events, held) && reads(last, held) ==> is_stale(events.push(last), held),
{
    let more = events.push(last);
    let end = events.len() as int;
    assert forall|i: int| 0 <= i < events.len() implies #[trigger] events[i] == more[i] by {}
    assert(more[end] == last);
    if was_read(events, held) && shows_absence(last, held.owner) {
        let i = choose|i: int| 0 <= i < events.len() && reads(#[trigger] events[i], held);
        assert(reads(more[i], held) && shows_absence(more[end], held.owner));
    }
    if owner_is_gone(events, held) && reads(last, held) {
        assert(more.take(end) =~= events);
        assert(reads(more[end], held));
    }
}

/// One more event keeps the taking of a lock accounted for.
proof fn lemma_step(view: AcquisitionView, events: Seq<LockEventView>, last: LockEventView)
    requires
        is_accounted_for(view, events),
    ensures
        is_accounted_for(lock::next(view, last), events.push(last)),
{
    let more = events.push(last);
    let after = lock::next(view, last);
    assert(more[events.len() as int] == last);
    let owner = match taker(after.stage) {
        Some(found) => found,
        None => OwnerRecord { pid: 0, start_time: 0 },
    };
    let held = match view.stage {
        StageView::Probing { held, .. } => held,
        StageView::Rereading { held, .. } => held,
        StageView::Removing { held, .. } => held,
        _ => LockSnapshot { owner, identity: FileIdentity { device: 0, inode: 0 } },
    };
    lemma_more_events(events, last, held, view.pid, owner);
    lemma_becomes_stale(events, last, held);
    if let StageView::Taken { identity, .. } = view.stage {
        let i = events.index_of(LockEventView::Created { identity });
        assert(more[i] == events[i]);
    }
    if let StageView::Probing { held: found, .. } = after.stage {
        if view.stage is Reading {
            assert(reads(more[events.len() as int], found));
        }
    }
}

/// Every taking of a lock is accounted for by its events.
proof fn lemma_accounted_for(output: Seq<char>, pid: u32, events: Seq<LockEventView>)
    ensures
        is_accounted_for(course(beginning(output, pid), events), events),
        course(beginning(output, pid), events).pid == pid,
        course(beginning(output, pid), events).path == output + ".rustypac.lock"@,
    decreases events.len(),
{
    if events.len() > 0 {
        let fewer = events.drop_last();
        lemma_accounted_for(output, pid, fewer);
        lemma_step(course(beginning(output, pid), fewer), fewer, events.last());
        assert(events =~= fewer.push(events.last()));
    }
}

/// A lock that another process left is removed only after it was read, its owner was found to
/// be gone, and it was read again to be the same file with the same owner. So the lock of a
/// live process, and one that names no owner, is left as it is.
pub proof fn only_a_stale_lock_is_removed(
    output: Seq<char>,
    pid: u32,
    events: Seq<LockEventView>,
)
    requires
        course(beginning(output, pid), events).stage is Removing,
    ensures
        is_stale(events, course(beginning(output, pid), events).stage->Removing_held),
{
    lemma_accounted_for(output, pid, events);
}

/// A lock that is taken was created by this process, in its own name.
pub proof fn a_lock_that_is_taken_was_created(
    output: Seq<char>,
    pid: u32,
    events: Seq<LockEventView>,
)
    requires
        course(beginning(output, pid), events).stage is Taken,
    ensures
        ({
            let stage = course(beginning(output, pid), events).stage;
            &&& events.contains(LockEventView::Created { identity: stage->identity })
            &&& is_self(events, pid, stage->Taken_owner)
        }),
{
    lemma_accounted_for(output, pid, events);
}

/// A live process keeps its lock: where the one that is named is found running since the time
/// that is named, the lock is refused.
pub proof fn a_live_owner_keeps_its_lock(
    view: AcquisitionView,
    owner: OwnerRecord,
    held: LockSnapshot,
    contents: Seq<char>,
)
    requires
        view.stage == (StageView::Probing { owner, held }),
        lock::recorded_start(contents) == Ok::<u64, Seq<char>>(held.owner.start_time),
    ensures
        lock::next(view, LockEventView::ProcessRead { contents }).stage == (StageView::Refused {
            error: LockErrorView::Held { pid: held.owner.pid },
        }),
{
}

/// Nothing changes a lock that is taken or refused.
pub proof fn a_settled_lock_stays_so(view: AcquisitionView, events: Seq<LockEventView>)
    requires
        view.stage is Taken || view.stage is Refused,
    ensures
        course(view, events) == view,
    decreases events.len(),
{
    if events.len() > 0 {
        a_settled_lock_stays_so(view, events.drop_last());
    }
}

/// A lock that was taken may be released as long as it is the same file with the same record.
pub proof fn a_lock_that_was_taken_may_be_released(
    held: LockSnapshot,
    read: FileIdentity,
    current: FileIdentity,
)
    ensures
        lock::may_be_released(held, lock::record_text(held.owner), read, current) <==> read
            == held.identity && current == held.identity,
{
    reading_a_record_gives_back_the_owner(held.owner);
}

/// A record that names an owner holds two numbers and nothing else: that of the process, and
/// when it started.
pub proof fn only_two_numbers_name_an_owner(contents: Seq<char>)
    ensures
        ({
            let all = numbers::fields(contents);
            lock::recorded_owner(contents) matches Ok(owner) ==> {
                &&& all.len() == 2
                &&& numbers::parsed_number(all[0], 0xffff_ffff) == Some(owner.pid as nat)
                &&& numbers::parsed_number(all[1], 0xffff_ffff_ffff_ffff) == Some(
                    owner.start_time as nat,
                )
            }
        }),
        ({
            let all = numbers::fields(contents);
            all.len() == 2 && numbers::parsed_number(all[0], 0xffff_ffff) is Some
                && numbers::parsed_number(all[1], 0xffff_ffff_ffff_ffff) is Some
                ==> lock::recorded_owner(contents) is Ok
        }),
{
}

/// The record of a process names the time at which it started as the twentieth field behind the
/// last closing parenthesis, whatever its name holds.
pub proof fn the_start_stands_behind_the_name(
    before: Seq<char>,
    behind: Seq<char>,
    start_time: u64,
)
    requires
        !behind.contains(')'),
        numbers::fields(behind).len() > 19,
        numbers::fields(behind)[19] == numbers::decimal(start_time as nat),
    ensures
        lock::recorded_start(before + seq![')'] + behind) == Ok::<u64, Seq<char>>(start_time),
{
    let all = before + seq![')'] + behind;
    assert(all[before.len() as int] == ')');
    lemma_after_last(all, before.len() as int);
    assert(all.skip(before.len() as int + 1) =~= behind);
    numbers::reading_undoes_writing(start_time as nat, u64::MAX as nat);
}

/// What stands behind the last parenthesis.
proof fn lemma_after_last(all: Seq<char>, at: int)
    requires
        0 <= at < all.len(),
        all[at] == ')',
        !all.skip(at + 1).contains(')'),
    ensures
        text::after_last(all, ')') == all.skip(at + 1),
    decreases all.len() - at,
{
    if at == all.len() - 1 {
        assert(all.skip(at + 1) =~= seq![]);
    } else {
        let fewer = all.drop_last();
        let rest = all.skip(at + 1);
        assert(rest.contains(rest[rest.len() - 1]));
        assert(!fewer.skip(at + 1).contains(')')) by {
            if fewer.skip(at + 1).contains(')') {
                let i = fewer.skip(at + 1).index_of(')');
                assert(rest[i] == ')');
            }
        }
        lemma_after_last(fewer, at);
        assert(fewer.skip(at + 1).push(all.last()) =~= rest);
    }
}

/// The time at which a process started is not told by a record without a closing parenthesis,
/// with too few fields, or with a field there that is no number.
pub proof fn a_start_that_is_not_told_is_refused(contents: Seq<char>)
    ensures
        !contents.contains(')') ==> lock::recorded_start(contents) is Err,
        lock::recorded_start(contents) matches Ok(start_time) ==> {
            let all = numbers::fields(text::after_last(contents, ')'));
            all.len() > 19 && numbers::parsed_number(all[19], 0xffff_ffff_ffff_ffff) == Some(
                start_time as nat,
            )
        },
{
}

/// A lock that is not there is created in the name of this process and then taken.
pub proof fn a_free_lock_is_taken(
    output: Seq<char>,
    pid: u32,
    record: Seq<char>,
    start_time: u64,
    identity: FileIdentity,
)
    requires
        lock::recorded_start(record) == Ok::<u64, Seq<char>>(start_time),
    ensures
        ({
            let first = beginning(output, pid);
            let known = lock::next(first, LockEventView::SelfRead(Ok(record)));
            let taken = lock::next(known, LockEventView::Created { identity });
            let owner = OwnerRecord { pid, start_time };
            &&& lock::next_action(first.stage) == LockAction::ReadSelf
            &&& lock::next_action(known.stage) == (LockAction::Create { owner })
            &&& lock::next_action(taken.stage) == LockAction::Return
            &&& taken.stage == (StageView::Taken { owner, identity })
        }),
{
}

/// A lock whose owner is gone is removed and taken, if it is still the same: because there is no
/// process with that number, or because the one with that number started at another time.
pub proof fn a_stale_lock_is_taken(
    view: AcquisitionView,
    owner: OwnerRecord,
    contents: Seq<char>,
    held: LockSnapshot,
    gone: LockEventView,
    again: Seq<char>,
    identity: FileIdentity,
)
    requires
        view.stage == (StageView::Creating { owner, recovering: false }),
        lock::recorded_owner(contents) == Ok::<OwnerRecord, Seq<char>>(held.owner),
        lock::recorded_owner(again) == Ok::<OwnerRecord, Seq<char>>(held.owner),
        shows_absence(gone, held.owner),
    ensures
        ({
            let found = lock::next(view, LockEventView::Exists);
            let read = lock::next(
                found,
                LockEventView::LockRead { contents, identity: held.identity },
            );
            let probed = lock::next(read, gone);
            let stale = lock::next(
                probed,
                LockEventView::LockRead { contents: again, identity: held.identity },
            );
            let removed = lock::next(stale, LockEventView::Removed(Ok(())));
            let taken = lock::next(removed, LockEventView::Created { identity });
            &&& lock::next_action(found.stage) == LockAction::Read
            &&& lock::next_action(read.stage) == (LockAction::ReadProcess { pid: held.owner.pid })
            &&& lock::next_action(probed.stage) == LockAction::ReadGuarded
            &&& lock::next_action(stale.stage) == LockAction::Remove
            &&& lock::next_action(removed.stage) == (LockAction::Create { owner })
            &&& taken.stage == (StageView::Taken { owner, identity })
        }),
{
}

/// The lock is refused because it cannot be told who holds it.
pub open spec fn is_doubtful(view: AcquisitionView, path: Seq<char>) -> bool {
    view.stage matches StageView::Refused { error } && (
    error matches LockErrorView::Unverifiable { path: found, .. } && found == path)
}

/// The lock is refused because this operation on it failed, for this reason.
pub open spec fn is_failed(
    view: AcquisitionView,
    operation: Seq<char>,
    path: Seq<char>,
    reason: Seq<char>,
) -> bool {
    view.stage == (StageView::Refused { error: LockErrorView::Io { operation, path, reason } })
}

/// A lock of which it cannot be told who holds it is left as it is, and refused: where its
/// record, or that of the process it names, cannot be understood, where that of the process
/// cannot be read, and where the lock is no longer the same, or there is one again.
pub proof fn a_doubtful_lock_is_left(
    view: AcquisitionView,
    owner: OwnerRecord,
    held: LockSnapshot,
    contents: Seq<char>,
    identity: FileIdentity,
    reason: Seq<char>,
)
    ensures
        ({
            let event = LockEventView::LockRead { contents, identity };
            view.stage == (StageView::Reading { owner }) && lock::recorded_owner(contents) is Err
                ==> is_doubtful(lock::next(view, event), view.path)
        }),
        ({
            let event = LockEventView::ProcessRead { contents };
            view.stage == (StageView::Probing { owner, held }) && lock::recorded_start(
                contents,
            ) is Err ==> is_doubtful(lock::next(view, event), view.path)
        }),
        view.stage == (StageView::Probing { owner, held }) ==> is_doubtful(
            lock::next(view, LockEventView::ProcessUnread { reason }),
            view.path,
        ),
        ({
            let event = LockEventView::LockRead { contents, identity };
            view.stage == (StageView::Rereading { owner, held }) && !(reads(event, held))
                ==> is_doubtful(lock::next(view, event), view.path)
        }),
        view.stage == (StageView::Creating { owner, recovering: true }) ==> is_doubtful(
            lock::next(view, LockEventView::Exists),
            view.path,
        ),
{
}

/// What cannot be read, created or removed refuses the lock, with the operation, the file and
/// the reason.
pub proof fn a_lock_that_cannot_be_worked_on_is_refused(
    view: AcquisitionView,
    operation: Seq<char>,
    reason: Seq<char>,
)
    ensures
        view.stage is Identifying ==> is_failed(
            lock::next(view, LockEventView::SelfRead(Err(reason))),
            "read process identity from"@,
            "/proc/"@ + numbers::decimal(view.pid as nat) + "/stat"@,
            reason,
        ),
        view.stage is Creating ==> is_failed(
            lock::next(view, LockEventView::NotCreated { operation, reason }),
            operation,
            view.path,
            reason,
        ),
        view.stage is Reading || view.stage is Rereading ==> is_failed(
            lock::next(view, LockEventView::LockUnread { operation, reason }),
            operation,
            view.path,
            reason,
        ),
        view.stage is Removing ==> is_failed(
            lock::next(view, LockEventView::Removed(Err(reason))),
            "remove stale"@,
            view.path,
            reason,
        ),
{
}

/// A process that cannot be told when it started itself takes no lock.
pub proof fn a_process_that_is_not_known_takes_no_lock(view: AcquisitionView, record: Seq<char>)
    requires
        view.stage is Identifying,
        lock::recorded_start(record) is Err,
    ensures
        is_doubtful(
            lock::next(view, LockEventView::SelfRead(Ok(record))),
            "/proc/"@ + numbers::decimal(view.pid as nat) + "/stat"@,
        ),
{
}

/// Only what came of the action that is due changes the taking of a lock, and it always takes it
/// on.
pub proof fn only_what_is_awaited_changes_a_taking(view: AcquisitionView, event: LockEventView)
    ensures
        ({
            let after = lock::next(view, event);
            let awaited = match lock::next_action(view.stage) {
                LockAction::ReadSelf => event is SelfRead,
                LockAction::Create { .. } => event is Created || event is Exists
                    || event is NotCreated,
                LockAction::Read | LockAction::ReadGuarded => event is LockRead
                    || event is LockUnread,
                LockAction::ReadProcess { .. } => event is ProcessRead || event is ProcessMissing
                    || event is ProcessUnread,
                LockAction::Remove => event is Removed,
                LockAction::Return => false,
            };
            &&& !awaited ==> after == view
            &&& awaited ==> after.stage != view.stage
            &&& after.path == view.path
            &&& after.pid == view.pid
        }),
{
}

/// The lock stands beside the output, and what was taken of it is what is held.
pub proof fn a_taking_is_for_its_output(
    output: &str,
    pid: u32,
    taking: Acquisition,
    outcome: Option<Result<LockSnapshot, LockError>>,
)
    requires
        call_ensures(Acquisition::new, (output, pid), taking),
    ensures
        taking@ == beginning(output@, pid),
        call_ensures(Acquisition::outcome, (taking,), outcome) ==> outcome is None,
{
}

/// What came of taking a lock is reported as that.
pub proof fn what_came_of_a_taking_is_reported(
    taking: Acquisition,
    outcome: Option<Result<LockSnapshot, LockError>>,
)
    requires
        call_ensures(Acquisition::outcome, (taking,), outcome),
    ensures
        outcome is Some <==> lock::next_action(taking@.stage) == LockAction::Return,
        outcome matches Some(Ok(held)) ==> taking@.stage == (StageView::Taken {
            owner: held.owner,
            identity: held.identity,
        }),
        outcome matches Some(Err(error)) ==> taking@.stage == (StageView::Refused {
            error: error@,
        }),
{
}

/// A lock is given up only if it is the same file with the same record as when it was taken:
/// one that was replaced, or that names another owner or none, is left.
pub proof fn only_an_own_lock_is_released(
    held: LockSnapshot,
    contents: Seq<char>,
    read: FileIdentity,
    current: FileIdentity,
)
    ensures
        lock::may_be_released(held, contents, read, current) ==> read == held.identity && current
            == held.identity && lock::recorded_owner(contents) == Ok::<OwnerRecord, Seq<char>>(
            held.owner,
        ),
        lock::recorded_owner(contents) is Err ==> !lock::may_be_released(
            held,
            contents,
            read,
            current,
        ),
        lock::recorded_owner(contents) == Ok::<OwnerRecord, Seq<char>>(held.owner)
            && read == held.identity && current == held.identity ==> lock::may_be_released(
            held,
            contents,
            read,
            current,
        ),
{
}

} // verus!

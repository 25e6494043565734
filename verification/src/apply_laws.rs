//! What holds of every application of a planned edit.

use vstd::prelude::*;
use vstd::string::*;
use vstd::utf8::*;

use crate::config;
use crate::config::{ConfigError, EditPlan, PlanView, Problem, StateView};
use crate::config_apply;
use crate::config_apply::{
    Application, ApplicationView, ApplyAction, ApplyEventView, ApplyOutcome, OutcomeView, StepView,
};
use crate::lock::FileIdentity;
use crate::numbers;
use crate::text_laws;

verus! {

/// The application once all of `events` have happened, the first one first.
pub open spec fn course(view: ApplicationView, events: Seq<ApplyEventView>) -> ApplicationView
    decreases events.len(),
{
    if events.len() == 0 {
        view
    } else {
        config_apply::next(course(view, events.drop_last()), events.last())
    }
}

/// The application of a plan that changes the configuration, before anything has happened.
pub open spec fn beginning(plan: PlanView) -> ApplicationView {
    ApplicationView { plan, directory: seq![], step: StepView::Locking }
}

/// Other edits were kept out by a lock of this program.
pub open spec fn was_locked(events: Seq<ApplyEventView>) -> bool {
    exists|i: int|
        0 <= i < events.len() && (#[trigger] events[i] matches ApplyEventView::LockTaken {
            contents,
        } && config_apply::is_edit_lock(contents))
}

/// The configuration was read to be the one that the edit was planned for, in a regular file
/// with one name.
pub open spec fn was_read(
    events: Seq<ApplyEventView>,
    plan: PlanView,
    source: FileIdentity,
) -> bool {
    events.contains(
        ApplyEventView::SourceRead {
            identity: source,
            regular: true,
            links: 1,
            contents: plan.original,
        },
    )
}

/// What the edit is to leave was staged and read again, and passed the checks.
pub open spec fn was_staged(events: Seq<ApplyEventView>, plan: PlanView) -> bool {
    events.contains(ApplyEventView::Staged { contents: plan.replacement })
        && config::staged_problem(plan, plan.replacement) is None
}

/// What was displaced was seen to be the very file that was read, with the very bytes.
pub open spec fn was_displaced(
    events: Seq<ApplyEventView>,
    plan: PlanView,
    source: FileIdentity,
) -> bool {
    events.contains(
        ApplyEventView::DisplacedRead { identity: source, contents: plan.original },
    )
}

/// The outcome is that the edit was applied.
pub open spec fn is_success(outcome: OutcomeView) -> bool {
    outcome is Applied || outcome is CleanupPending
}

/// The edit has taken the place of the configuration it was planned for.
pub open spec fn is_installed(events: Seq<ApplyEventView>, plan: PlanView) -> bool {
    was_locked(events) && was_staged(events, plan) && exists|source: FileIdentity|
        was_read(events, plan, source) && #[trigger] was_displaced(events, plan, source)
}

/// What the events so far must hold for the application to be where it is.
spec fn is_accounted_for(view: ApplicationView, events: Seq<ApplyEventView>) -> bool {
    match view.step {
        StepView::Locking => true,
        StepView::Marking { .. } | StepView::Reading => was_locked(events),
        StepView::Allocating { source, .. } => was_locked(events) && was_read(
            events,
            view.plan,
            source,
        ),
        StepView::Staging { source } => was_locked(events) && was_read(events, view.plan, source),
        StepView::Exchanging { source } | StepView::Examining { source } => was_locked(events)
            && was_read(events, view.plan, source) && was_staged(events, view.plan),
        StepView::Sweeping { source } => was_read(events, view.plan, source) && was_displaced(
            events,
            view.plan,
            source,
        ) && is_installed(events, view.plan),
        StepView::Removing { .. } => is_installed(events, view.plan),
        StepView::Reverting { refusal } | StepView::Discarding { refusal } => !is_success(refusal),
        StepView::Done { outcome } => is_success(outcome) ==> is_installed(events, view.plan),
    }
}

/// What earlier events hold, more events hold.
proof fn lemma_more_events(
    events: Seq<ApplyEventView>,
    last: ApplyEventView,
    plan: PlanView,
)
    ensures
        was_locked(events) ==> was_locked(events.push(last)),
        was_staged(events, plan) ==> was_staged(events.push(last), plan),
        forall|source: FileIdentity|
            was_read(events, plan, source) ==> #[trigger] was_read(
                events.push(last),
                plan,
                source,
            ),
        forall|source: FileIdentity|
            was_displaced(events, plan, source) ==> #[trigger] was_displaced(
                events.push(last),
                plan,
                source,
            ),
        is_installed(events, plan) ==> is_installed(events.push(last), plan),
        events.push(last).contains(last),
        (last matches ApplyEventView::LockTaken { contents } && config_apply::is_edit_lock(
            contents,
        )) ==> was_locked(events.push(last)),
{
    let more = events.push(last);
    assert(more[events.len() as int] == last);
    assert forall|event: ApplyEventView| events.contains(event) implies more.contains(event) by {
        let i = events.index_of(event);
        assert(more[i] == event);
    }
    if was_locked(events) {
        let i = choose|i: int|
            0 <= i < events.len() && (#[trigger] events[i] matches ApplyEventView::LockTaken {
                contents,
            } && config_apply::is_edit_lock(contents));
        assert(more[i] == events[i]);
    }
    if is_installed(events, plan) {
        let source = choose|source: FileIdentity|
            was_read(events, plan, source) && #[trigger] was_displaced(events, plan, source);
        assert(was_read(more, plan, source) && was_displaced(more, plan, source));
    }
}

/// One more event keeps the application accounted for.
proof fn lemma_step(view: ApplicationView, events: Seq<ApplyEventView>, last: ApplyEventView)
    requires
        is_accounted_for(view, events),
    ensures
        is_accounted_for(config_apply::next(view, last), events.push(last)),
{
    let more = events.push(last);
    lemma_more_events(events, last, view.plan);
    if let (
        StepView::Examining { source },
        ApplyEventView::DisplacedRead { identity, contents },
    ) = (view.step, last) {
        if identity == source && contents == view.plan.original {
            assert(was_read(more, view.plan, source) && was_displaced(more, view.plan, source));
        }
    }
}

/// Every application is accounted for by its events.
proof fn lemma_accounted_for(
    plan: PlanView,
    events: Seq<ApplyEventView>,
)
    ensures
        is_accounted_for(course(beginning(plan), events), events),
        course(beginning(plan), events).plan == plan,
    decreases events.len(),
{
    if events.len() > 0 {
        let fewer = events.drop_last();
        lemma_accounted_for(plan, fewer);
        lemma_step(course(beginning(plan), fewer), fewer, events.last());
        assert(events =~= fewer.push(events.last()));
    }
}

/// The configuration is displaced only with other edits kept out, after it was read to be the
/// one that the edit was planned for, and after what takes its place passed the checks.
pub proof fn only_a_checked_edit_is_installed(
    plan: PlanView,
    events: Seq<ApplyEventView>,
)
    requires
        course(beginning(plan), events).step is Exchanging,
    ensures
        was_locked(events),
        was_staged(events, plan),
        was_read(
            events,
            plan,
            course(beginning(plan), events).step->Exchanging_source,
        ),
{
    lemma_accounted_for(plan, events);
}

/// An edit counts as applied only if what it displaced was the very file that was read, with
/// the bytes that the edit was planned for. So no other edit is lost.
pub proof fn an_applied_edit_displaced_its_source(
    plan: PlanView,
    events: Seq<ApplyEventView>,
)
    requires
        course(beginning(plan), events).step is Done,
        is_success(course(beginning(plan), events).step->outcome),
    ensures
        is_installed(events, plan),
{
    lemma_accounted_for(plan, events);
}

/// A configuration that was changed in the meantime is put back.
pub proof fn a_changed_configuration_is_put_back(
    view: ApplicationView,
    source: FileIdentity,
    identity: FileIdentity,
    contents: Seq<u8>,
)
    requires
        view.step == (StepView::Examining { source }),
        identity != source || contents != view.plan.original,
    ensures
        ({
            let displaced = config_apply::next(
                view,
                ApplyEventView::DisplacedRead { identity, contents },
            );
            let restored = config_apply::next(displaced, ApplyEventView::ExchangedBack);
            let discarded = config_apply::next(restored, ApplyEventView::Discarded);
            &&& config_apply::next_action(displaced.step)
                == ApplyAction::ExchangeBack
            &&& discarded.step == (StepView::Done { outcome: OutcomeView::Changed })
        }),
{
}

/// What stands where the displaced configuration was is removed only if it is that very file.
pub proof fn only_the_displaced_file_is_removed(
    view: ApplicationView,
    source: FileIdentity,
    found: FileIdentity,
)
    requires
        view.step == (StepView::Sweeping { source }),
    ensures
        config_apply::next(view, ApplyEventView::StageInspected { found: Some(found) }).step == (
        if found == source {
            StepView::Removing { file: true }
        } else {
            StepView::Done {
                outcome: OutcomeView::CleanupPending { staging_directory: view.directory },
            }
        }),
{
}

/// Nothing changes an application that is over.
pub proof fn an_application_that_is_over_stays_so(
    view: ApplicationView,
    events: Seq<ApplyEventView>,
)
    requires
        view.step is Done,
    ensures
        course(view, events) == view,
    decreases events.len(),
{
    if events.len() > 0 {
        an_application_that_is_over_stays_so(view, events.drop_last());
    }
}

/// There is a stage, in the directory of the application.
pub open spec fn has_stage(step: StepView) -> bool {
    step is Staging || step is Exchanging || step is Examining || step is Reverting
        || step is Discarding || step is Sweeping || step is Removing
}

/// A stage is discarded, exchanged, looked at or removed only in a directory that was made for
/// it.
pub proof fn only_an_own_stage_is_touched(plan: PlanView, events: Seq<ApplyEventView>)
    requires
        has_stage(course(beginning(plan), events).step),
    ensures
        events.contains(
            ApplyEventView::StageAllocated {
                directory: course(beginning(plan), events).directory,
            },
        ),
    decreases events.len(),
{
    if events.len() > 0 {
        let fewer = events.drop_last();
        let before = course(beginning(plan), fewer);
        if has_stage(before.step) {
            only_an_own_stage_is_touched(plan, fewer);
            let event = ApplyEventView::StageAllocated { directory: before.directory };
            let i = fewer.index_of(event);
            assert(events[i] == event);
        } else {
            assert(events[events.len() - 1] == events.last());
        }
    }
}

/// The event that a name is taken, over and over.
pub open spec fn names_taken(count: nat) -> Seq<ApplyEventView> {
    Seq::new(count, |i: int| ApplyEventView::StageNameTaken)
}

/// While names are taken, the next one is tried, until a hundred have been; then the edit is
/// refused, with nothing staged and nothing to discard.
pub proof fn a_hundred_names_are_tried(view: ApplicationView, source: FileIdentity, count: nat)
    requires
        view.step == (StepView::Allocating { source, attempt: 0 }),
        count <= 100,
    ensures
        course(view, names_taken(count)).step == (if count < 100 {
            StepView::Allocating { source, attempt: count as u32 }
        } else {
            StepView::Done { outcome: OutcomeView::Refused { problem: Problem::NoStagingName } }
        }),
    decreases count,
{
    if count > 0 {
        let fewer = (count - 1) as nat;
        a_hundred_names_are_tried(view, source, fewer);
        assert(names_taken(count).drop_last() =~= names_taken(fewer));
    } else {
        assert(names_taken(0) =~= seq![]);
    }
}

/// An edit that changes nothing is applied without anything being done, and any other one starts
/// by keeping other edits out.
pub proof fn only_a_change_has_to_be_applied<'a>(
    plan: &'a EditPlan,
    application: Application<'a>,
)
    requires
        call_ensures(Application::<'a>::new, (plan,), application),
    ensures
        plan@.original == plan@.replacement ==> application@.step == (StepView::Done {
            outcome: OutcomeView::Applied,
        }),
        plan@.original != plan@.replacement ==> application@ == beginning(plan@),
{
}

/// The edit is refused, with nothing staged.
pub open spec fn refuses(view: ApplicationView, problem: Problem) -> bool {
    view.step == (StepView::Done { outcome: OutcomeView::Refused { problem } })
}

/// An edit is kept out by a lock that another program uses, and only by that: a lock that is
/// empty is marked as one of this program, and one that is marked is taken as it is.
pub proof fn a_foreign_lock_keeps_an_edit_out(plan: PlanView, contents: Seq<u8>)
    ensures
        ({
            let marked = encode_utf8("RustyPac edit lock v1\n"@);
            let locked = config_apply::next(
                beginning(plan),
                ApplyEventView::LockTaken { contents },
            );
            let read = config_apply::next(locked, ApplyEventView::LockMarked);
            &&& config_apply::next_action(beginning(plan).step) == ApplyAction::TakeEditLock
            &&& if contents.len() == 0 || contents == marked {
                &&& config_apply::next_action(locked.step) == (ApplyAction::MarkEditLock {
                    fresh: contents.len() == 0,
                })
                &&& config_apply::next_action(read.step) == ApplyAction::ReadSource
            } else {
                refuses(locked, Problem::ForeignEditLock)
            }
        }),
{
}

/// A configuration that is no regular file, that has more than one name, or that is not the one
/// that the edit was planned for, is left as it is; any other one is staged for.
pub proof fn only_the_planned_configuration_is_edited(
    view: ApplicationView,
    identity: FileIdentity,
    regular: bool,
    links: u64,
    contents: Seq<u8>,
)
    requires
        view.step is Reading,
    ensures
        ({
            let read = config_apply::next(
                view,
                ApplyEventView::SourceRead { identity, regular, links, contents },
            );
            &&& !regular ==> refuses(read, Problem::NotRegular)
            &&& regular && links != 1 ==> refuses(read, Problem::HardLinked)
            &&& regular && links == 1 && contents != view.plan.original ==> read.step == (
            StepView::Done { outcome: OutcomeView::Changed })
            &&& regular && links == 1 && contents == view.plan.original
                ==> config_apply::next_action(read.step) == ApplyAction::AllocateStage
        }),
{
}

/// What is staged takes the place of the configuration if it is what the edit is to leave, with
/// the state that the edit is to reach; and else it is discarded, and the edit is refused.
pub proof fn only_what_was_planned_is_exchanged(
    view: ApplicationView,
    source: FileIdentity,
    contents: Seq<u8>,
)
    requires
        view.step == (StepView::Staging { source }),
    ensures
        ({
            let staged = config_apply::next(view, ApplyEventView::Staged { contents });
            let discarded = config_apply::next(staged, ApplyEventView::Discarded);
            let state = config::config_state(contents, view.plan.executable);
            if contents == view.plan.replacement && state == Ok::<StateView, Problem>(
                view.plan.expected,
            ) {
                config_apply::next_action(staged.step) == ApplyAction::Exchange
            } else {
                &&& config_apply::next_action(staged.step) == ApplyAction::DiscardStage
                &&& contents != view.plan.replacement ==> refuses(discarded, Problem::StagedBytes)
                &&& contents == view.plan.replacement && state is Ok ==> refuses(
                    discarded,
                    Problem::StagedState,
                )
                &&& contents == view.plan.replacement ==> (state matches Err(problem) ==> refuses(
                    discarded,
                    problem,
                ))
            }
        }),
{
}

/// An edit is applied where nothing stands in its way: with other edits kept out, the
/// configuration as planned, the stage as planned, and what was displaced as it was read, the
/// edit is applied once the displaced file is removed, or with its directory left to be cleaned
/// up.
pub proof fn an_edit_is_applied_where_nothing_stands_in_its_way(
    plan: PlanView,
    lock: Seq<u8>,
    source: FileIdentity,
    directory: Seq<char>,
    found: bool,
    left: Option<Seq<char>>,
)
    requires
        lock.len() == 0 || lock == encode_utf8("RustyPac edit lock v1\n"@),
        config::config_state(plan.replacement, plan.executable) == Ok::<StateView, Problem>(
            plan.expected,
        ),
    ensures
        ({
            let locked = config_apply::next(
                beginning(plan),
                ApplyEventView::LockTaken { contents: lock },
            );
            let marked = config_apply::next(locked, ApplyEventView::LockMarked);
            let read = config_apply::next(
                marked,
                ApplyEventView::SourceRead {
                    identity: source,
                    regular: true,
                    links: 1,
                    contents: plan.original,
                },
            );
            let allocated = config_apply::next(
                read,
                ApplyEventView::StageAllocated { directory },
            );
            let staged = config_apply::next(
                allocated,
                ApplyEventView::Staged { contents: plan.replacement },
            );
            let exchanged = config_apply::next(staged, ApplyEventView::Exchanged);
            let displaced = config_apply::next(
                exchanged,
                ApplyEventView::DisplacedRead { identity: source, contents: plan.original },
            );
            let inspected = config_apply::next(
                displaced,
                ApplyEventView::StageInspected {
                    found: if found {
                        Some(source)
                    } else {
                        None
                    },
                },
            );
            let removed = config_apply::next(inspected, ApplyEventView::StageRemoved { left });
            &&& config_apply::next_action(allocated.step) == ApplyAction::Stage
            &&& allocated.directory == directory
            &&& config_apply::next_action(staged.step) == ApplyAction::Exchange
            &&& config_apply::next_action(exchanged.step) == ApplyAction::ReadDisplaced
            &&& config_apply::next_action(displaced.step) == ApplyAction::InspectStage
            &&& config_apply::next_action(inspected.step) == (ApplyAction::RemoveStage {
                file: found,
            })
            &&& config_apply::next_action(removed.step) == ApplyAction::Return
            &&& removed.step == (StepView::Done {
                outcome: match left {
                    None => OutcomeView::Applied,
                    Some(staging_directory) => OutcomeView::CleanupPending { staging_directory },
                },
            })
        }),
{
}

/// What fails before the configuration was displaced ends the edit with the reason, and what was
/// staged is discarded first. What fails while the displaced file is looked at puts it back.
/// What fails after that is only left to be cleaned up.
pub proof fn a_failure_leaves_the_configuration(view: ApplicationView, reason: Seq<char>)
    ensures
        ({
            let failed = config_apply::next(view, ApplyEventView::Failed { reason });
            let over = StepView::Done { outcome: OutcomeView::Io { reason } };
            match config_apply::next_action(view.step) {
                ApplyAction::TakeEditLock | ApplyAction::MarkEditLock { .. }
                | ApplyAction::ReadSource | ApplyAction::AllocateStage
                | ApplyAction::ExchangeBack => failed.step == over,
                ApplyAction::Stage | ApplyAction::Exchange => {
                    &&& config_apply::next_action(failed.step) == ApplyAction::DiscardStage
                    &&& config_apply::next(failed, ApplyEventView::Discarded).step == over
                },
                ApplyAction::ReadDisplaced => {
                    let restored = config_apply::next(failed, ApplyEventView::ExchangedBack);
                    &&& config_apply::next_action(failed.step) == ApplyAction::ExchangeBack
                    &&& config_apply::next_action(restored.step) == ApplyAction::DiscardStage
                    &&& config_apply::next(restored, ApplyEventView::Discarded).step == over
                },
                ApplyAction::InspectStage => failed.step == (StepView::Done {
                    outcome: OutcomeView::CleanupPending { staging_directory: view.directory },
                }),
                ApplyAction::DiscardStage | ApplyAction::RemoveStage { .. }
                | ApplyAction::Return => failed == view,
            }
        }),
{
}

/// Only what came of the action that is due, or that it failed, changes the application of an
/// edit.
pub proof fn only_what_is_awaited_changes_an_application(
    view: ApplicationView,
    event: ApplyEventView,
)
    ensures
        ({
            let after = config_apply::next(view, event);
            let awaited = match config_apply::next_action(view.step) {
                ApplyAction::TakeEditLock => event is LockTaken,
                ApplyAction::MarkEditLock { .. } => event is LockMarked,
                ApplyAction::ReadSource => event is SourceRead,
                ApplyAction::AllocateStage => event is StageAllocated || event is StageNameTaken,
                ApplyAction::Stage => event is Staged,
                ApplyAction::Exchange => event is Exchanged,
                ApplyAction::ReadDisplaced => event is DisplacedRead,
                ApplyAction::ExchangeBack => event is ExchangedBack,
                ApplyAction::DiscardStage => event is Discarded,
                ApplyAction::InspectStage => event is StageInspected,
                ApplyAction::RemoveStage { .. } => event is StageRemoved,
                ApplyAction::Return => false,
            };
            &&& !awaited && !(event is Failed) ==> after == view
            &&& awaited ==> after.step != view.step
            &&& after.plan == view.plan
        }),
{
}

/// What came of an edit is reported as that: success only where it was applied, and each refusal
/// in its own words.
pub proof fn what_came_of_an_edit_is_reported<'a>(
    application: Application<'a>,
    outcome: Option<Result<ApplyOutcome, ConfigError>>,
)
    requires
        call_ensures(Application::<'a>::outcome, (application,), outcome),
    ensures
        outcome is Some <==> config_apply::next_action(application@.step) == ApplyAction::Return,
        application@.step matches StepView::Done { outcome: view } ==> match view {
            OutcomeView::Applied => outcome == Some(
                Ok::<ApplyOutcome, ConfigError>(ApplyOutcome::Applied),
            ),
            OutcomeView::CleanupPending { staging_directory } => outcome matches Some(
                Ok(ApplyOutcome::AppliedWithCleanupPending { staging_directory: left }),
            ) && left@ == staging_directory,
            OutcomeView::Refused { problem } => outcome matches Some(Err(error)) && error.text()
                == "invalid pacman configuration: "@ + config::problem_text(problem),
            OutcomeView::Changed => outcome matches Some(Err(error)) && error.text()
                == "pacman configuration changed while the edit was pending"@,
            OutcomeView::Io { reason } => outcome matches Some(Err(error)) && error.text()
                == "pacman configuration update failed: "@ + reason,
        },
{
}

/// Two edits of a file are never staged under the same name, unless they are the same edit of the
/// same process.
pub proof fn stages_are_named_apart(
    name: &str,
    pid: u32,
    sequence: u64,
    other_pid: u32,
    other_sequence: u64,
    first: String,
    second: String,
)
    requires
        call_ensures(config_apply::staging_name, (name, pid, sequence), first),
        call_ensures(config_apply::staging_name, (name, other_pid, other_sequence), second),
    ensures
        first@ == second@ <==> pid == other_pid && sequence == other_sequence,
        first@.len() > 0 && first@[0] == '.',
        name@.len() > 0 ==> first@.subrange(1, 1 + name@.len() as int) == name@,
{
    reveal_strlit(".");
    reveal_strlit(".rustypac-stage-");
    reveal_strlit("-");
    let head = "."@ + name@ + ".rustypac-stage-"@;
    let left = numbers::decimal(pid as nat);
    let right = numbers::decimal(other_pid as nat);
    let left_end = numbers::decimal(sequence as nat);
    let right_end = numbers::decimal(other_sequence as nat);
    assert("-"@ =~= seq!['-']);
    assert(first@ =~= head + (left + seq!['-'] + left_end));
    assert(second@ =~= head + (right + seq!['-'] + right_end));
    numbers::decimal_writes_its_value(pid as nat);
    numbers::decimal_writes_its_value(other_pid as nat);
    text_laws::numbers_are_written_apart(pid as nat, other_pid as nat);
    text_laws::numbers_are_written_apart(sequence as nat, other_sequence as nat);
    lemma_digits_lack_dash(left);
    lemma_digits_lack_dash(right);
    text_laws::text_is_cut_at_stops(left, left_end, '-');
    text_laws::text_is_cut_at_stops(right, right_end, '-');
    if first@ == second@ {
        let tail = left + seq!['-'] + left_end;
        let other = right + seq!['-'] + right_end;
        assert(first@.skip(head.len() as int) =~= tail);
        assert(second@.skip(head.len() as int) =~= other);
        assert(tail == other);
        assert(left == right);
        assert(tail.skip(left.len() as int + 1) =~= left_end);
        assert(other.skip(right.len() as int + 1) =~= right_end);
    }
    assert(first@.subrange(1, 1 + name@.len() as int) =~= name@);
}

/// Digits are no dash.
proof fn lemma_digits_lack_dash(digits: Seq<char>)
    requires
        numbers::all_digits(digits),
    ensures
        !digits.contains('-'),
{
    if digits.contains('-') {
        let i = digits.index_of('-');
        assert(numbers::is_digit(digits[i]));
    }
}

} // verus!

//! What holds of every dialogue about the configuration.

use vstd::prelude::*;
use vstd::string::*;

use crate::config;
use crate::config::{DisableChoice, Problem, StateView, INSTALLED_EXECUTABLE};
use crate::config_interaction;
use crate::config_interaction::{
    DialogueAction, DialogueEventView, DialogueView, RunStatus, StageView, Wish,
};
use crate::config_laws;

verus! {

/// The dialogue once all of `events` have happened, the first one first.
pub open spec fn course(view: DialogueView, events: Seq<DialogueEventView>) -> DialogueView
    decreases events.len(),
{
    if events.len() == 0 {
        view
    } else {
        config_interaction::next(course(view, events.drop_last()), events.last()).0
    }
}

/// A dialogue that has yet to begin.
pub open spec fn beginning(wish: Wish, path: Seq<char>, privileged: bool) -> DialogueView {
    DialogueView { wish, path, privileged, stage: StageView::Reading }
}

/// The configuration was read, and held `contents`.
pub open spec fn was_read(events: Seq<DialogueEventView>, contents: Seq<u8>) -> bool {
    events.contains(DialogueEventView::Contents(Ok(contents)))
}

/// The user has answered with `line`.
pub open spec fn was_answered(events: Seq<DialogueEventView>, line: Seq<char>) -> bool {
    events.contains(DialogueEventView::Answer(Ok(line)))
}

/// The user has said yes.
pub open spec fn has_consent(events: Seq<DialogueEventView>) -> bool {
    exists|line: Seq<char>| was_answered(events, line) && config_interaction::says_yes(line)
}

/// The plan is one for the configuration that was read and for the wish of the user.
pub open spec fn is_planned(
    wish: Wish,
    events: Seq<DialogueEventView>,
    plan: config::PlanView,
) -> bool {
    was_read(events, plan.original) && match wish {
        Wish::Enable => config::enable_plan(plan.original, INSTALLED_EXECUTABLE@) == Ok::<
            config::PlanView,
            Problem,
        >(plan) && plan.initial !is Active,
        Wish::Disable => plan.initial is Active && exists|choice: DisableChoice|
            config::disable_plan(plan.original, INSTALLED_EXECUTABLE@, choice) == Ok::<
                config::PlanView,
                Problem,
            >(plan),
    }
}

/// What the events so far must hold for the dialogue to be where it is.
spec fn is_accounted_for(view: DialogueView, events: Seq<DialogueEventView>) -> bool {
    match view.stage {
        StageView::Reading => true,
        StageView::ConfirmingEnable { plan } => view.wish == Wish::Enable && is_planned(
            view.wish,
            events,
            plan,
        ),
        StageView::ConfirmingDisable { contents } => view.wish == Wish::Disable && was_read(
            events,
            contents,
        ) && config::config_state(contents, INSTALLED_EXECUTABLE@) == Ok::<StateView, Problem>(
            StateView::Active,
        ),
        StageView::Choosing { contents } => view.wish == Wish::Disable && was_read(
            events,
            contents,
        ) && has_consent(events) && config::config_state(contents, INSTALLED_EXECUTABLE@) == Ok::<
            StateView,
            Problem,
        >(StateView::Active),
        StageView::Applying { plan } => is_planned(view.wish, events, plan) && has_consent(events),
        StageView::Done { .. } => true,
    }
}

/// What earlier events hold, more events hold.
proof fn lemma_more_events(events: Seq<DialogueEventView>, last: DialogueEventView)
    ensures
        forall|contents: Seq<u8>|
            was_read(events, contents) ==> #[trigger] was_read(events.push(last), contents),
        has_consent(events) ==> has_consent(events.push(last)),
        last matches DialogueEventView::Contents(Ok(contents)) ==> was_read(
            events.push(last),
            contents,
        ),
        (last matches DialogueEventView::Answer(Ok(line)) && config_interaction::says_yes(line))
            ==> has_consent(events.push(last)),
{
    let more = events.push(last);
    assert(more[events.len() as int] == last);
    assert forall|event: DialogueEventView| events.contains(event) implies more.contains(
        event,
    ) by {
        let i = events.index_of(event);
        assert(more[i] == event);
    }
    if has_consent(events) {
        let line = choose|line: Seq<char>|
            was_answered(events, line) && config_interaction::says_yes(line);
        assert(was_answered(more, line));
    }
    if let DialogueEventView::Answer(Ok(line)) = last {
        assert(was_answered(more, line));
    }
}

/// A plan for a configuration is a plan for these very bytes.
proof fn lemma_plan_source(contents: Seq<u8>, choice: DisableChoice)
    ensures
        config::enable_plan(contents, INSTALLED_EXECUTABLE@) matches Ok(plan) ==> plan.original
            == contents,
        config::disable_plan(contents, INSTALLED_EXECUTABLE@, choice) matches Ok(plan)
            ==> plan.original == contents && config::config_state(contents, INSTALLED_EXECUTABLE@)
            == Ok::<StateView, Problem>(plan.initial),
{
}

/// One more event keeps a dialogue accounted for.
proof fn lemma_step(
    view: DialogueView,
    events: Seq<DialogueEventView>,
    last: DialogueEventView,
)
    requires
        is_accounted_for(view, events),
    ensures
        is_accounted_for(config_interaction::next(view, last).0, events.push(last)),
{
    lemma_more_events(events, last);
    match (view.stage, last) {
        (StageView::Reading, DialogueEventView::Contents(Ok(contents))) => {
            lemma_plan_source(contents, DisableChoice::Default);
        },
        (
            StageView::ConfirmingDisable { contents },
            DialogueEventView::Answer(Ok(_)),
        ) => {
            lemma_plan_source(contents, DisableChoice::Default);
        },
        (StageView::Choosing { contents }, DialogueEventView::Answer(Ok(line))) => {
            lemma_plan_source(contents, config_interaction::chosen(line));
        },
        _ => {},
    }
}

/// Every dialogue is accounted for by its events.
proof fn lemma_accounted_for(
    wish: Wish,
    path: Seq<char>,
    privileged: bool,
    events: Seq<DialogueEventView>,
)
    ensures
        is_accounted_for(course(beginning(wish, path, privileged), events), events),
        course(beginning(wish, path, privileged), events).wish == wish,
        course(beginning(wish, path, privileged), events).path == path,
        course(beginning(wish, path, privileged), events).privileged == privileged,
    decreases events.len(),
{
    if events.len() > 0 {
        let fewer = events.drop_last();
        lemma_accounted_for(wish, path, privileged, fewer);
        lemma_step(course(beginning(wish, path, privileged), fewer), fewer, events.last());
        assert(events =~= fewer.push(events.last()));
    }
}

/// The configuration is changed only after the user has said yes, only as planned for the
/// bytes that were read, and only where the program is not what the user wishes yet.
pub proof fn nothing_is_applied_without_consent(
    wish: Wish,
    path: Seq<char>,
    privileged: bool,
    events: Seq<DialogueEventView>,
)
    requires
        course(beginning(wish, path, privileged), events).stage is Applying,
    ensures
        has_consent(events),
        is_planned(
            wish,
            events,
            course(beginning(wish, path, privileged), events).stage->Applying_plan,
        ),
{
    lemma_accounted_for(wish, path, privileged, events);
}

/// A plan that a dialogue applies to enable the program passes the checks that are made before
/// it replaces the configuration.
pub proof fn what_enabling_applies_passes_staging(
    path: Seq<char>,
    privileged: bool,
    events: Seq<DialogueEventView>,
)
    requires
        course(beginning(Wish::Enable, path, privileged), events).stage is Applying,
    ensures
        ({
            let plan = course(
                beginning(Wish::Enable, path, privileged),
                events,
            ).stage->Applying_plan;
            config::staged_problem(plan, plan.replacement) is None
        }),
{
    lemma_accounted_for(Wish::Enable, path, privileged, events);
    let plan = course(beginning(Wish::Enable, path, privileged), events).stage->Applying_plan;
    reveal_strlit("/usr/local/bin/RustyPac");
    config_laws::enabling_passes_staging(plan.original, INSTALLED_EXECUTABLE@);
}

/// A plan that a dialogue applies to disable the program passes the checks that are made before
/// it replaces the configuration, unless it is to name a downloader again that is the program
/// itself.
pub proof fn what_disabling_applies_passes_staging(
    path: Seq<char>,
    privileged: bool,
    events: Seq<DialogueEventView>,
)
    requires
        course(beginning(Wish::Disable, path, privileged), events).stage is Applying,
        ({
            let plan = course(
                beginning(Wish::Disable, path, privileged),
                events,
            ).stage->Applying_plan;
            plan.expected is Conflicting ==> !config_laws::preserves_itself(
                plan.original,
                INSTALLED_EXECUTABLE@,
            )
        }),
    ensures
        ({
            let plan = course(
                beginning(Wish::Disable, path, privileged),
                events,
            ).stage->Applying_plan;
            config::staged_problem(plan, plan.replacement) is None
        }),
{
    lemma_accounted_for(Wish::Disable, path, privileged, events);
    let plan = course(beginning(Wish::Disable, path, privileged), events).stage->Applying_plan;
    reveal_strlit("/usr/local/bin/RustyPac");
    let choice = choose|choice: DisableChoice|
        config::disable_plan(plan.original, INSTALLED_EXECUTABLE@, choice) == Ok::<
            config::PlanView,
            Problem,
        >(plan);
    config_laws::disabling_passes_staging(plan.original, INSTALLED_EXECUTABLE@, choice);
}

/// An answer that cannot be read ends the dialogue in failure with nothing applied.
pub proof fn an_unread_answer_fails_closed(view: DialogueView, reason: Seq<char>)
    requires
        view.stage is ConfirmingEnable || view.stage is ConfirmingDisable || view.stage is Choosing,
    ensures
        config_interaction::next(view, DialogueEventView::Answer(Err(reason))).0.stage
            == (StageView::Done { status: RunStatus::Failure }),
{
}

/// Nothing changes a dialogue that has ended.
pub proof fn a_dialogue_that_has_ended_stays_so(
    view: DialogueView,
    events: Seq<DialogueEventView>,
)
    requires
        view.stage is Done,
    ensures
        course(view, events) == view,
    decreases events.len(),
{
    if events.len() > 0 {
        a_dialogue_that_has_ended_stays_so(view, events.drop_last());
    }
}

/// All characters end a line.
pub open spec fn is_line_end(end: Seq<char>) -> bool {
    forall|i: int| 0 <= i < end.len() ==> #[trigger] end[i] == '\n' || end[i] == '\r'
}

/// The line is this one letter, in either case, and nothing but what ends a line behind it.
pub open spec fn is_letter(line: Seq<char>, small: char, large: char) -> bool {
    line.len() > 0 && (line[0] == small || line[0] == large) && is_line_end(line.skip(1))
}

/// An answer is what stands before the line feeds and carriage returns at the end of the line.
proof fn lemma_answer(line: Seq<char>)
    ensures
        ({
            let answer = config_interaction::answer_text(line);
            &&& answer.len() <= line.len()
            &&& answer == line.take(answer.len() as int)
            &&& is_line_end(line.skip(answer.len() as int))
            &&& answer.len() > 0 ==> answer.last() != '\n' && answer.last() != '\r'
        }),
    decreases line.len(),
{
    if line.len() > 0 && (line.last() == '\n' || line.last() == '\r') {
        let fewer = line.drop_last();
        lemma_answer(fewer);
        let length = config_interaction::answer_text(line).len() as int;
        assert(line.take(length) =~= fewer.take(length));
        let end = line.skip(length);
        assert forall|i: int| 0 <= i < end.len() implies #[trigger] end[i] == '\n' || end[i]
            == '\r' by {
            if i < end.len() - 1 {
                assert(end[i] == fewer.skip(length)[i]);
            }
        }
    } else {
        assert(line.take(line.len() as int) =~= line);
    }
}

/// An answer is this one letter exactly if the line is.
proof fn lemma_letter(line: Seq<char>, letter: char)
    requires
        letter != '\n',
        letter != '\r',
    ensures
        config_interaction::answer_text(line) == seq![letter] <==> line.len() > 0 && line[0]
            == letter && is_line_end(line.skip(1)),
{
    lemma_answer(line);
    let answer = config_interaction::answer_text(line);
    if answer == seq![letter] {
        assert(line[0] == answer[0]);
    }
    if line.len() > 0 && line[0] == letter && is_line_end(line.skip(1)) {
        if answer.len() == 0 {
            assert(line.skip(0)[0] == line[0]);
        } else if answer.len() > 1 {
            assert(answer.last() == line[answer.len() - 1]);
            assert(line.skip(1)[answer.len() - 2] == line[answer.len() - 1]);
        }
        assert(answer =~= seq![letter]);
    }
}

/// A user says yes with the letter y alone, in either case, and asks for the downloader that was
/// set aside with the letter e alone, in either case. What ends the line does not count.
pub proof fn one_letter_answers(line: Seq<char>)
    ensures
        config_interaction::says_yes(line) <==> is_letter(line, 'y', 'Y'),
        config_interaction::chosen(line) == (if is_letter(line, 'e', 'E') {
            DisableChoice::Existing
        } else {
            DisableChoice::Default
        }),
{
    reveal_strlit("y");
    reveal_strlit("Y");
    reveal_strlit("e");
    reveal_strlit("E");
    assert("y"@ =~= seq!['y'] && "Y"@ =~= seq!['Y'] && "e"@ =~= seq!['e'] && "E"@ =~= seq!['E']);
    lemma_letter(line, 'y');
    lemma_letter(line, 'Y');
    lemma_letter(line, 'e');
    lemma_letter(line, 'E');
}

/// The user is asked this question next.
pub open spec fn asks(view: DialogueView, question: Seq<char>) -> bool {
    config_interaction::next_action(view.stage) matches DialogueAction::Ask { question: asked }
        && asked@ == question
}

/// The dialogue is over, with this status.
pub open spec fn is_over(view: DialogueView, status: RunStatus) -> bool {
    config_interaction::next_action(view.stage) == (DialogueAction::Return { status })
}

/// Who wishes to enable the program is asked, and the plan for the configuration is applied on
/// a yes and on nothing else, whether another downloader is named, the program is commented out
/// or nothing is named. Only where the program is active already the user is told so instead.
pub proof fn enabling_asks_unless_already_active(
    view: DialogueView,
    contents: Seq<u8>,
    line: Seq<char>,
)
    requires
        view.wish == Wish::Enable,
        view.stage is Reading,
    ensures
        ({
            let state = config::config_state(contents, INSTALLED_EXECUTABLE@);
            let planned = config::enable_plan(contents, INSTALLED_EXECUTABLE@);
            let (read, told) = config_interaction::next(
                view,
                DialogueEventView::Contents(Ok(contents)),
            );
            let (answered, reply) = config_interaction::next(
                read,
                DialogueEventView::Answer(Ok(line)),
            );
            &&& state == Ok::<StateView, Problem>(StateView::Active) ==> {
                &&& is_over(read, RunStatus::Success)
                &&& told == "RustyPac is already active\n"@
            }
            &&& state is Ok && state->Ok_0 !is Active && planned is Ok ==> {
                &&& asks(read, "Enable RustyPac? [y/N]"@)
                &&& told == (if view.privileged {
                    ""@
                } else {
                    "RustyPac: changing pacman.conf requires sudo\n"@
                })
                &&& if is_letter(line, 'y', 'Y') {
                    &&& config_interaction::next_action(answered.stage) is Apply
                    &&& answered.stage == (StageView::Applying { plan: planned->Ok_0 })
                    &&& reply == ""@
                } else {
                    &&& is_over(answered, RunStatus::Success)
                    &&& reply == "RustyPac enable cancelled\n"@
                }
            }
            &&& planned matches Err(problem) ==> is_over(read, RunStatus::Failure)
                && tells_failure(
                told,
                view,
                "inspect"@,
                "invalid pacman configuration: "@ + config::problem_text(problem),
            )
        }),
{
    reveal_strlit("");
    assert(""@ =~= seq![]);
    one_letter_answers(line);
}

/// Who wishes to disable the program is asked where it is active, and told what is the case
/// where it is not. On a yes the plan for pacman's own downloader is made, unless another one
/// was set aside: which of the two is to follow the user is asked then.
pub proof fn disabling_asks_where_the_program_is_active(
    view: DialogueView,
    contents: Seq<u8>,
    line: Seq<char>,
    choice: Seq<char>,
)
    requires
        view.wish == Wish::Disable,
        view.stage is Reading,
    ensures
        ({
            let state = config::config_state(contents, INSTALLED_EXECUTABLE@);
            let (read, told) = config_interaction::next(
                view,
                DialogueEventView::Contents(Ok(contents)),
            );
            let (answered, reply) = config_interaction::next(
                read,
                DialogueEventView::Answer(Ok(line)),
            );
            let (decided, _) = config_interaction::next(
                answered,
                DialogueEventView::Answer(Ok(choice)),
            );
            let preserves = config::preserves_downloader(contents, INSTALLED_EXECUTABLE@);
            let wanted = if is_letter(choice, 'e', 'E') {
                DisableChoice::Existing
            } else {
                DisableChoice::Default
            };
            match state {
                Err(problem) => is_over(read, RunStatus::Failure) && tells_failure(
                    told,
                    view,
                    "inspect"@,
                    "invalid pacman configuration: "@ + config::problem_text(problem),
                ),
                Ok(StateView::Absent) => is_over(read, RunStatus::Success) && told
                    == "RustyPac is absent\n"@,
                Ok(StateView::Disabled) => is_over(read, RunStatus::Success) && told
                    == "RustyPac is already disabled\n"@,
                Ok(StateView::Conflicting { line: named }) => is_over(read, RunStatus::Success)
                    && told == "RustyPac is absent; another XferCommand is active: "@ + named
                    + "\n"@,
                Ok(StateView::Active) => {
                    &&& asks(read, "Disable RustyPac? [y/N]"@)
                    &&& told == (if view.privileged {
                        ""@
                    } else {
                        "RustyPac: changing pacman.conf requires sudo\n"@
                    })
                    &&& !is_letter(line, 'y', 'Y') ==> is_over(answered, RunStatus::Success)
                        && reply == "RustyPac disable cancelled\n"@
                    &&& is_letter(line, 'y', 'Y') && preserves == Ok::<bool, Problem>(true) ==> {
                        &&& asks(
                            answered,
                            "Revert to existing XferCommand [e] or to default pacman behaviour? [enter]"@,
                        )
                        &&& follows_plan(decided, contents, wanted)
                    }
                    &&& is_letter(line, 'y', 'Y') && preserves == Ok::<bool, Problem>(false)
                        ==> follows_plan(answered, contents, DisableChoice::Default)
                },
            }
        }),
{
    reveal_strlit("");
    assert(""@ =~= seq![]);
    one_letter_answers(line);
    one_letter_answers(choice);
}

/// The plan that disables the program in `contents` is applied next, or, where there is none,
/// the dialogue has failed.
pub open spec fn follows_plan(
    view: DialogueView,
    contents: Seq<u8>,
    choice: DisableChoice,
) -> bool {
    match config::disable_plan(contents, INSTALLED_EXECUTABLE@, choice) {
        Ok(plan) => config_interaction::next_action(view.stage) is Apply && view.stage == (
        StageView::Applying { plan }),
        Err(_) => is_over(view, RunStatus::Failure),
    }
}

/// A plan that was applied ends the dialogue in success, with a word of what is left to be
/// cleaned up before the word of success; one that could not be applied ends it in failure, with
/// the reason.
pub proof fn what_came_of_the_plan_is_told(
    view: DialogueView,
    left: Seq<char>,
    reason: Seq<char>,
)
    requires
        view.stage is Applying,
    ensures
        ({
            let clean = config_interaction::next(view, DialogueEventView::Applied(Ok(None)));
            let pending = config_interaction::next(
                view,
                DialogueEventView::Applied(Ok(Some(left))),
            );
            let failed = config_interaction::next(view, DialogueEventView::Applied(Err(reason)));
            let success = if view.wish == Wish::Enable {
                "RustyPac is now active\n"@
            } else {
                "RustyPac is now disabled\n"@
            };
            &&& is_over(clean.0, RunStatus::Success)
            &&& clean.1 == success
            &&& is_over(pending.0, RunStatus::Success)
            &&& pending.1 == "RustyPac: configuration was updated, but cleanup remains at "@ + left
                + "\n"@ + success
            &&& is_over(failed.0, RunStatus::Failure)
            &&& tells_failure(failed.1, view, "update"@, reason)
        }),
{
    let clean = config_interaction::next(view, DialogueEventView::Applied(Ok(None)));
    assert(clean.1 =~= (if view.wish == Wish::Enable {
        "RustyPac is now active\n"@
    } else {
        "RustyPac is now disabled\n"@
    }));
    lemma_failure(view, "update"@, reason);
}

/// The text says that the action failed on the configuration, and why; and who may not change
/// the configuration is told how to.
pub open spec fn tells_failure(
    told: Seq<char>,
    view: DialogueView,
    action: Seq<char>,
    reason: Seq<char>,
) -> bool {
    let report = "RustyPac: failed to "@ + action + " "@ + view.path + ": "@ + reason + "\n"@;
    told == (if view.privileged {
        report
    } else {
        report + "RustyPac: rerun with sudo to modify pacman.conf\n"@
    })
}

/// A failure is told as one.
proof fn lemma_failure(view: DialogueView, action: Seq<char>, reason: Seq<char>)
    ensures
        tells_failure(config_interaction::failed(view, action, reason).1, view, action, reason),
{
}

/// What cannot be read ends the dialogue in failure, and the user is told why.
pub proof fn what_cannot_be_read_is_told(view: DialogueView, reason: Seq<char>)
    ensures
        view.stage is Reading ==> {
            let (after, told) = config_interaction::next(
                view,
                DialogueEventView::Contents(Err(reason)),
            );
            is_over(after, RunStatus::Failure) && tells_failure(told, view, "read"@, reason)
        },
        config_interaction::next_action(view.stage) is Ask ==> {
            let (after, told) = config_interaction::next(
                view,
                DialogueEventView::Answer(Err(reason)),
            );
            is_over(after, RunStatus::Failure) && tells_failure(
                told,
                view,
                "read response for"@,
                reason,
            )
        },
{
}

/// Only what came of the action that is due changes a dialogue, and it always takes it on.
pub proof fn only_what_is_awaited_changes_a_dialogue(view: DialogueView, event: DialogueEventView)
    ensures
        ({
            let (after, told) = config_interaction::next(view, event);
            let awaited = match config_interaction::next_action(view.stage) {
                DialogueAction::Read => event is Contents,
                DialogueAction::Ask { .. } => event is Answer,
                DialogueAction::Apply => event is Applied,
                DialogueAction::Return { .. } => false,
            };
            &&& !awaited ==> after == view && told.len() == 0
            &&& awaited ==> after.stage != view.stage
            &&& after.wish == view.wish
            &&& after.path == view.path
            &&& after.privileged == view.privileged
        }),
{
}

/// The program ends with zero exactly after a dialogue that succeeded.
pub proof fn only_success_exits_with_zero(status: RunStatus, code: u8)
    requires
        call_ensures(config_interaction::exit_code, (status,), code),
    ensures
        code == 0 <==> status == RunStatus::Success,
{
}

/// The program is enabled under the path at which it is installed, in the configuration that
/// pacman reads.
pub proof fn the_installed_program_and_configuration_are_meant(path: &'static str)
    requires
        call_ensures(config_interaction::production_config_path, (), path),
    ensures
        path@ == "/etc/pacman.conf"@,
        INSTALLED_EXECUTABLE@ == "/usr/local/bin/RustyPac"@,
{
}

} // verus!

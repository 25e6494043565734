//! The dialogue in which a user enables or disables the program as pacman's downloader.

use vstd::prelude::*;
use vstd::string::*;

use crate::config;
use crate::config::{
    has_preserved_downloader, plan_disable, plan_enable, state, ConfigState, DisableChoice,
    EditPlan, PlanView, StateView, INSTALLED_EXECUTABLE,
};
use crate::text::{characters, collect, same};

verus! {

/// The configuration of pacman.
pub const PACMAN_CONF: &'static str = "/etc/pacman.conf";

/// What the user is asked before the program is enabled.
pub const ENABLE_QUESTION: &'static str = "Enable RustyPac? [y/N]";

/// What the user is asked before the program is disabled.
pub const DISABLE_QUESTION: &'static str = "Disable RustyPac? [y/N]";

/// What the user is asked where a downloader was set aside.
pub const CHOICE_QUESTION: &'static str =
    "Revert to existing XferCommand [e] or to default pacman behaviour? [enter]";

/// How a dialogue ended.
#[derive(Debug, Clone, Copy, Eq, PartialEq, Structural)]
pub enum RunStatus {
    Success,
    Failure,
}

/// The configuration that is edited.
pub fn production_config_path() -> (path: &'static str)
    ensures
        path@ == PACMAN_CONF@,
{
    PACMAN_CONF
}

/// What the user wants.
#[derive(Debug, Clone, Copy, Eq, PartialEq, Structural)]
pub enum Wish {
    Enable,
    Disable,
}

/// What is to be done next.
#[derive(Debug, Clone, Copy, Eq, PartialEq)]
pub enum DialogueAction {
    /// Read the configuration.
    Read,
    /// Ask the user, and read a line.
    Ask { question: &'static str },
    /// Apply the plan.
    Apply,
    /// End.
    Return { status: RunStatus },
}

/// What has happened.
#[derive(Debug)]
pub enum DialogueEvent {
    /// The configuration was read, or could not be, for this reason.
    Contents(Result<Vec<u8>, String>),
    /// The user answered with this line, or could not be asked, for this reason.
    Answer(Result<String, String>),
    /// The plan was applied, with a directory left to be cleaned up or without, or it could
    /// not be, for this reason.
    Applied(Result<Option<String>, String>),
}

/// The model of [`DialogueEvent`].
pub ghost enum DialogueEventView {
    Contents(Result<Seq<u8>, Seq<char>>),
    Answer(Result<Seq<char>, Seq<char>>),
    Applied(Result<Option<Seq<char>>, Seq<char>>),
}

impl View for DialogueEvent {
    type V = DialogueEventView;

    open spec fn view(&self) -> DialogueEventView {
        match self {
            DialogueEvent::Contents(Ok(contents)) => DialogueEventView::Contents(Ok(contents@)),
            DialogueEvent::Contents(Err(reason)) => DialogueEventView::Contents(Err(reason@)),
            DialogueEvent::Answer(Ok(line)) => DialogueEventView::Answer(Ok(line@)),
            DialogueEvent::Answer(Err(reason)) => DialogueEventView::Answer(Err(reason@)),
            DialogueEvent::Applied(Ok(Some(directory))) => DialogueEventView::Applied(
                Ok(Some(directory@)),
            ),
            DialogueEvent::Applied(Ok(None)) => DialogueEventView::Applied(Ok(None)),
            DialogueEvent::Applied(Err(reason)) => DialogueEventView::Applied(Err(reason@)),
        }
    }
}

/// Where a dialogue is in its course.
#[derive(Debug)]
enum Stage {
    Reading,
    ConfirmingEnable { plan: EditPlan },
    ConfirmingDisable { contents: Vec<u8> },
    Choosing { contents: Vec<u8> },
    Applying { plan: EditPlan },
    Done { status: RunStatus },
}

/// The model of where a dialogue is in its course.
pub ghost enum StageView {
    /// The configuration is read.
    Reading,
    /// The user is asked whether to apply this plan.
    ConfirmingEnable { plan: PlanView },
    /// The user is asked whether to disable the program in this configuration.
    ConfirmingDisable { contents: Seq<u8> },
    /// The user is asked which downloader is to follow.
    Choosing { contents: Seq<u8> },
    /// The plan is applied.
    Applying { plan: PlanView },
    /// Nothing is left to do.
    Done { status: RunStatus },
}

/// A dialogue about the configuration at `path`.
#[derive(Debug)]
pub struct Dialogue {
    wish: Wish,
    path: String,
    privileged: bool,
    stage: Stage,
}

/// The model of [`Dialogue`].
pub ghost struct DialogueView {
    pub wish: Wish,
    pub path: Seq<char>,
    /// The user may change the configuration.
    pub privileged: bool,
    pub stage: StageView,
}

impl View for Dialogue {
    type V = DialogueView;

    closed spec fn view(&self) -> DialogueView {
        DialogueView {
            wish: self.wish,
            path: self.path@,
            privileged: self.privileged,
            stage: match self.stage {
                Stage::Reading => StageView::Reading,
                Stage::ConfirmingEnable { plan } => StageView::ConfirmingEnable { plan: plan@ },
                Stage::ConfirmingDisable { contents } => StageView::ConfirmingDisable {
                    contents: contents@,
                },
                Stage::Choosing { contents } => StageView::Choosing { contents: contents@ },
                Stage::Applying { plan } => StageView::Applying { plan: plan@ },
                Stage::Done { status } => StageView::Done { status },
            },
        }
    }
}

/// The line without the line feeds and carriage returns at its end.
pub open spec fn answer_text(line: Seq<char>) -> Seq<char>
    decreases line.len(),
{
    if line.len() > 0 && (line.last() == '\n' || line.last() == '\r') {
        answer_text(line.drop_last())
    } else {
        line
    }
}

/// The line says yes: it is the letter y, in either case.
pub open spec fn says_yes(line: Seq<char>) -> bool {
    answer_text(line) == "y"@ || answer_text(line) == "Y"@
}

/// The line asks for the downloader that was set aside: it is the letter e, in either case.
pub open spec fn chosen(line: Seq<char>) -> DisableChoice {
    if answer_text(line) == "e"@ || answer_text(line) == "E"@ {
        DisableChoice::Existing
    } else {
        DisableChoice::Default
    }
}

/// What a user is told where `action` failed.
pub open spec fn failure_text(
    action: Seq<char>,
    path: Seq<char>,
    reason: Seq<char>,
    privileged: bool,
) -> Seq<char> {
    let report = "RustyPac: failed to "@ + action + " "@ + path + ": "@ + reason + "\n"@;
    if privileged {
        report
    } else {
        report + "RustyPac: rerun with sudo to modify pacman.conf\n"@
    }
}

/// What a user who may not change the configuration is told before it is changed.
pub open spec fn privilege_note(privileged: bool) -> Seq<char> {
    if privileged {
        seq![]
    } else {
        "RustyPac: changing pacman.conf requires sudo\n"@
    }
}

/// What a user is told of a directory that is left to be cleaned up.
pub open spec fn cleanup_note(directory: Option<Seq<char>>) -> Seq<char> {
    match directory {
        Some(path) => "RustyPac: configuration was updated, but cleanup remains at "@ + path
            + "\n"@,
        None => seq![],
    }
}

/// How a configuration that is not to be disabled is reported.
pub open spec fn inactive_report(found: StateView) -> Seq<char> {
    match found {
        StateView::Active => seq![],
        StateView::Absent => "RustyPac is absent\n"@,
        StateView::Disabled => "RustyPac is already disabled\n"@,
        StateView::Conflicting { line } =>
            "RustyPac is absent; another XferCommand is active: "@ + line + "\n"@,
    }
}

/// The dialogue ended with `status`.
pub open spec fn ended(view: DialogueView, status: RunStatus) -> DialogueView {
    DialogueView { stage: StageView::Done { status }, ..view }
}

/// The dialogue ended because `action` failed, and what the user is told.
pub open spec fn failed(view: DialogueView, action: Seq<char>, reason: Seq<char>) -> (
    DialogueView,
    Seq<char>,
) {
    (ended(view, RunStatus::Failure), failure_text(action, view.path, reason, view.privileged))
}

/// What a user is told of a problem with the configuration.
pub open spec fn problem_report(problem: config::Problem) -> Seq<char> {
    "invalid pacman configuration: "@ + config::problem_text(problem)
}

/// The dialogue once the configuration is known, and what the user is told.
pub open spec fn inspected(view: DialogueView, contents: Seq<u8>) -> (DialogueView, Seq<char>) {
    match view.wish {
        Wish::Enable => match config::enable_plan(contents, INSTALLED_EXECUTABLE@) {
            Err(problem) => failed(view, "inspect"@, problem_report(problem)),
            Ok(plan) => if plan.initial is Active {
                (ended(view, RunStatus::Success), "RustyPac is already active\n"@)
            } else {
                (
                    DialogueView { stage: StageView::ConfirmingEnable { plan }, ..view },
                    privilege_note(view.privileged),
                )
            },
        },
        Wish::Disable => match config::config_state(contents, INSTALLED_EXECUTABLE@) {
            Err(problem) => failed(view, "inspect"@, problem_report(problem)),
            Ok(found) => if found is Active {
                (
                    DialogueView { stage: StageView::ConfirmingDisable { contents }, ..view },
                    privilege_note(view.privileged),
                )
            } else {
                (ended(view, RunStatus::Success), inactive_report(found))
            },
        },
    }
}

/// The dialogue once it is known which downloader is to follow, and what the user is told.
pub open spec fn decided(view: DialogueView, contents: Seq<u8>, choice: DisableChoice) -> (
    DialogueView,
    Seq<char>,
) {
    match config::disable_plan(contents, INSTALLED_EXECUTABLE@, choice) {
        Err(problem) => failed(view, "inspect"@, problem_report(problem)),
        Ok(plan) => (DialogueView { stage: StageView::Applying { plan }, ..view }, seq![]),
    }
}

/// The dialogue once the user has agreed to disable the program, and what the user is told.
pub open spec fn agreed(view: DialogueView, contents: Seq<u8>) -> (DialogueView, Seq<char>) {
    match config::preserves_downloader(contents, INSTALLED_EXECUTABLE@) {
        Err(problem) => failed(view, "inspect"@, problem_report(problem)),
        Ok(true) => (DialogueView { stage: StageView::Choosing { contents }, ..view }, seq![]),
        Ok(false) => decided(view, contents, DisableChoice::Default),
    }
}

/// The dialogue once the plan was applied or not, and what the user is told.
pub open spec fn applied(
    view: DialogueView,
    outcome: Result<Option<Seq<char>>, Seq<char>>,
) -> (DialogueView, Seq<char>) {
    match outcome {
        Err(reason) => failed(view, "update"@, reason),
        Ok(directory) => (
            ended(view, RunStatus::Success),
            cleanup_note(directory) + (match view.wish {
                Wish::Enable => "RustyPac is now active\n"@,
                Wish::Disable => "RustyPac is now disabled\n"@,
            }),
        ),
    }
}

/// The dialogue once `event` has happened, and what the user is told. An event that its stage
/// does not wait for changes nothing.
pub open spec fn next(view: DialogueView, event: DialogueEventView) -> (DialogueView, Seq<char>) {
    match (view.stage, event) {
        (StageView::Reading, DialogueEventView::Contents(read)) => match read {
            Err(reason) => failed(view, "read"@, reason),
            Ok(contents) => inspected(view, contents),
        },
        (StageView::ConfirmingEnable { plan }, DialogueEventView::Answer(answer)) => match answer {
            Err(reason) => failed(view, "read response for"@, reason),
            Ok(line) => if says_yes(line) {
                (DialogueView { stage: StageView::Applying { plan }, ..view }, seq![])
            } else {
                (ended(view, RunStatus::Success), "RustyPac enable cancelled\n"@)
            },
        },
        (StageView::ConfirmingDisable { contents }, DialogueEventView::Answer(answer)) =>
            match answer {
                Err(reason) => failed(view, "read response for"@, reason),
                Ok(line) => if says_yes(line) {
                    agreed(view, contents)
                } else {
                    (ended(view, RunStatus::Success), "RustyPac disable cancelled\n"@)
                },
            },
        (StageView::Choosing { contents }, DialogueEventView::Answer(answer)) => match answer {
            Err(reason) => failed(view, "read response for"@, reason),
            Ok(line) => decided(view, contents, chosen(line)),
        },
        (StageView::Applying { .. }, DialogueEventView::Applied(outcome)) => applied(view, outcome),
        _ => (view, seq![]),
    }
}

/// What is to be done next in this stage.
pub open spec fn next_action(stage: StageView) -> DialogueAction {
    match stage {
        StageView::Reading => DialogueAction::Read,
        StageView::ConfirmingEnable { .. } => DialogueAction::Ask { question: ENABLE_QUESTION },
        StageView::ConfirmingDisable { .. } => DialogueAction::Ask { question: DISABLE_QUESTION },
        StageView::Choosing { .. } => DialogueAction::Ask { question: CHOICE_QUESTION },
        StageView::Applying { .. } => DialogueAction::Apply,
        StageView::Done { status } => DialogueAction::Return { status },
    }
}

/// The line without the line feeds and carriage returns at its end.
fn strip_line_end(line: &str) -> (answer: String)
    ensures
        answer@ == answer_text(line@),
{
    let all: Vec<char> = characters(line);
    let mut end: usize = all.len();
    assert(all@.take(end as int) =~= line@);
    while end > 0 && (all[end - 1] == '\n' || all[end - 1] == '\r')
        invariant
            end <= all@.len(),
            answer_text(all@.take(end as int)) == answer_text(line@),
        decreases end,
    {
        assert(all@.take(end as int).drop_last() =~= all@.take(end - 1));
        end -= 1;
    }
    assert(all@.subrange(0, end as int) =~= all@.take(end as int));
    collect(all.as_slice(), 0, end)
}

/// The line says yes.
pub fn is_confirmation(line: &str) -> (confirmed: bool)
    ensures
        confirmed == says_yes(line@),
{
    let answer: String = strip_line_end(line);
    same(answer.as_str(), "y") || same(answer.as_str(), "Y")
}

/// Which downloader the line asks for.
pub fn disable_choice(line: &str) -> (choice: DisableChoice)
    ensures
        choice == chosen(line@),
{
    let answer: String = strip_line_end(line);
    if same(answer.as_str(), "e") || same(answer.as_str(), "E") {
        DisableChoice::Existing
    } else {
        DisableChoice::Default
    }
}

/// What a user is told where `action` failed.
fn config_failure(action: &str, path: &str, reason: &str, privileged: bool) -> (report: String)
    ensures
        report@ == failure_text(action@, path@, reason@, privileged),
{
    let mut report: String = "RustyPac: failed to ".to_owned();
    report.append(action);
    report.append(" ");
    report.append(path);
    report.append(": ");
    report.append(reason);
    report.append("\n");
    if !privileged {
        report.append("RustyPac: rerun with sudo to modify pacman.conf\n");
    }
    report
}

/// What a user who may not change the configuration is told before it is changed.
fn note_sudo_requirement(privileged: bool) -> (note: String)
    ensures
        note@ == privilege_note(privileged),
{
    if privileged {
        String::new()
    } else {
        "RustyPac: changing pacman.conf requires sudo\n".to_owned()
    }
}

/// What a user is told of a directory that is left to be cleaned up.
fn report_cleanup_warning(directory: Option<String>) -> (note: String)
    ensures
        note@ == cleanup_note(
            match directory {
                Some(path) => Some(path@),
                None => None,
            },
        ),
{
    match directory {
        Some(path) => {
            let mut note: String =
                "RustyPac: configuration was updated, but cleanup remains at ".to_owned();
            note.append(path.as_str());
            note.append("\n");
            note
        },
        None => String::new(),
    }
}

/// How a configuration that is not to be disabled is reported.
fn report_inactive(found: &ConfigState) -> (report: String)
    ensures
        report@ == inactive_report(found@),
{
    match found {
        ConfigState::Active => String::new(),
        ConfigState::Absent => "RustyPac is absent\n".to_owned(),
        ConfigState::Disabled => "RustyPac is already disabled\n".to_owned(),
        ConfigState::Conflicting { line } => {
            let mut report: String =
                "RustyPac is absent; another XferCommand is active: ".to_owned();
            report.append(line.as_str());
            report.append("\n");
            report
        },
    }
}

impl Dialogue {
    /// A dialogue that has yet to begin.
    pub fn new(wish: Wish, path: &str, privileged: bool) -> (dialogue: Dialogue)
        ensures
            dialogue@ == (DialogueView {
                wish,
                path: path@,
                privileged,
                stage: StageView::Reading,
            }),
    {
        Dialogue { wish, path: path.to_owned(), privileged, stage: Stage::Reading }
    }

    /// What is to be done next.
    pub fn action(&self) -> (action: DialogueAction)
        ensures
            action == next_action(self@.stage),
    {
        match &self.stage {
            Stage::Reading => DialogueAction::Read,
            Stage::ConfirmingEnable { .. } => DialogueAction::Ask { question: ENABLE_QUESTION },
            Stage::ConfirmingDisable { .. } => DialogueAction::Ask { question: DISABLE_QUESTION },
            Stage::Choosing { .. } => DialogueAction::Ask { question: CHOICE_QUESTION },
            Stage::Applying { .. } => DialogueAction::Apply,
            Stage::Done { status } => DialogueAction::Return { status: *status },
        }
    }

    /// The plan that is to be applied, if one is.
    pub fn plan(&self) -> (plan: Option<&EditPlan>)
        ensures
            plan is Some <==> self@.stage is Applying,
            plan matches Some(found) ==> self@.stage == (StageView::Applying { plan: found@ }),
    {
        match &self.stage {
            Stage::Applying { plan } => Some(plan),
            _ => None,
        }
    }

    /// The dialogue at another stage.
    fn at(self, stage: Stage) -> (dialogue: Dialogue)
        ensures
            dialogue.stage == stage,
            dialogue@ == (DialogueView { stage: dialogue@.stage, ..self@ }),
    {
        Dialogue { wish: self.wish, path: self.path, privileged: self.privileged, stage }
    }

    /// Ends because `action` failed.
    fn fail(self, action: &str, reason: &str) -> (turn: (Dialogue, String))
        ensures
            (turn.0@, turn.1@) == failed(self@, action@, reason@),
    {
        let report: String = config_failure(action, self.path.as_str(), reason, self.privileged);
        (self.at(Stage::Done { status: RunStatus::Failure }), report)
    }

    /// Goes on once the configuration is known.
    fn inspect(self, contents: Vec<u8>) -> (turn: (Dialogue, String))
        ensures
            (turn.0@, turn.1@) == inspected(self@, contents@),
    {
        let note: String = note_sudo_requirement(self.privileged);
        match self.wish {
            Wish::Enable => match plan_enable(contents.as_slice(), INSTALLED_EXECUTABLE) {
                Err(error) => self.fail("inspect", error.message().as_str()),
                Ok(plan) => {
                    if let ConfigState::Active = plan.initial_state() {
                        return (
                            self.at(Stage::Done { status: RunStatus::Success }),
                            "RustyPac is already active\n".to_owned(),
                        );
                    }
                    (self.at(Stage::ConfirmingEnable { plan }), note)
                },
            },
            Wish::Disable => match state(contents.as_slice()) {
                Err(error) => self.fail("inspect", error.message().as_str()),
                Ok(ConfigState::Active) => (self.at(Stage::ConfirmingDisable { contents }), note),
                Ok(found) => {
                    let report: String = report_inactive(&found);
                    (self.at(Stage::Done { status: RunStatus::Success }), report)
                },
            },
        }
    }

    /// Goes on once it is known which downloader is to follow.
    fn decide(self, contents: Vec<u8>, choice: DisableChoice) -> (turn: (Dialogue, String))
        ensures
            (turn.0@, turn.1@) == decided(self@, contents@, choice),
    {
        match plan_disable(contents.as_slice(), choice) {
            Err(error) => self.fail("inspect", error.message().as_str()),
            Ok(plan) => (self.at(Stage::Applying { plan }), String::new()),
        }
    }

    /// Goes on once the user has agreed to disable the program.
    fn agree(self, contents: Vec<u8>) -> (turn: (Dialogue, String))
        ensures
            (turn.0@, turn.1@) == agreed(self@, contents@),
    {
        match has_preserved_downloader(contents.as_slice()) {
            Err(error) => self.fail("inspect", error.message().as_str()),
            Ok(true) => (self.at(Stage::Choosing { contents }), String::new()),
            Ok(false) => self.decide(contents, DisableChoice::Default),
        }
    }

    /// Goes on once the plan was applied or not.
    fn conclude(self, outcome: Result<Option<String>, String>) -> (turn: (Dialogue, String))
        ensures
            (turn.0@, turn.1@) == applied(
                self@,
                match outcome {
                    Ok(Some(directory)) => Ok(Some(directory@)),
                    Ok(None) => Ok(None),
                    Err(reason) => Err(reason@),
                },
            ),
    {
        match outcome {
            Err(reason) => self.fail("update", reason.as_str()),
            Ok(directory) => {
                let mut report: String = report_cleanup_warning(directory);
                match self.wish {
                    Wish::Enable => report.append("RustyPac is now active\n"),
                    Wish::Disable => report.append("RustyPac is now disabled\n"),
                }
                (self.at(Stage::Done { status: RunStatus::Success }), report)
            },
        }
    }

    /// Goes on after `event` has happened, and says what the user is told. An event that the
    /// stage does not wait for changes nothing.
    pub fn handle(self, event: DialogueEvent) -> (turn: (Dialogue, String))
        ensures
            (turn.0@, turn.1@) == next(self@, event@),
    {
        let Dialogue { wish, path, privileged, stage } = self;
        match (stage, event) {
            (Stage::Reading, DialogueEvent::Contents(read)) => {
                let dialogue = Dialogue { wish, path, privileged, stage: Stage::Reading };
                match read {
                    Err(reason) => dialogue.fail("read", reason.as_str()),
                    Ok(contents) => dialogue.inspect(contents),
                }
            },
            (Stage::ConfirmingEnable { plan }, DialogueEvent::Answer(answer)) => {
                let dialogue = Dialogue { wish, path, privileged, stage: Stage::Reading };
                match answer {
                    Err(reason) => dialogue.fail("read response for", reason.as_str()),
                    Ok(line) => {
                        if is_confirmation(line.as_str()) {
                            (dialogue.at(Stage::Applying { plan }), String::new())
                        } else {
                            (
                                dialogue.at(Stage::Done { status: RunStatus::Success }),
                                "RustyPac enable cancelled\n".to_owned(),
                            )
                        }
                    },
                }
            },
            (Stage::ConfirmingDisable { contents }, DialogueEvent::Answer(answer)) => {
                let dialogue = Dialogue { wish, path, privileged, stage: Stage::Reading };
                match answer {
                    Err(reason) => dialogue.fail("read response for", reason.as_str()),
                    Ok(line) => {
                        if is_confirmation(line.as_str()) {
                            dialogue.agree(contents)
                        } else {
                            (
                                dialogue.at(Stage::Done { status: RunStatus::Success }),
                                "RustyPac disable cancelled\n".to_owned(),
                            )
                        }
                    },
                }
            },
            (Stage::Choosing { contents }, DialogueEvent::Answer(answer)) => {
                let dialogue = Dialogue { wish, path, privileged, stage: Stage::Reading };
                match answer {
                    Err(reason) => dialogue.fail("read response for", reason.as_str()),
                    Ok(line) => dialogue.decide(contents, disable_choice(line.as_str())),
                }
            },
            (Stage::Applying { .. }, DialogueEvent::Applied(outcome)) => {
                let dialogue = Dialogue { wish, path, privileged, stage: Stage::Reading };
                dialogue.conclude(outcome)
            },
            (same_stage, _) => (
                Dialogue { wish, path, privileged, stage: same_stage },
                String::new(),
            ),
        }
    }
}

/// The number with which the program ends after a dialogue.
pub fn exit_code(status: RunStatus) -> (code: u8)
    ensures
        code == (if status == RunStatus::Success {
            0int
        } else {
            1
        }),
{
    match status {
        RunStatus::Success => 0,
        RunStatus::Failure => 1,
    }
}

} // verus!

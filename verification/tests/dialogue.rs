use rustypac::config::{plan_enable, ConfigError, DisableChoice, EditPlan};
use rustypac::config_apply::{
    edit_lock_name, staging_name, Application, ApplyAction, ApplyEvent, ApplyOutcome,
};
use rustypac::config_interaction::{
    disable_choice, exit_code, is_confirmation, production_config_path, Dialogue, DialogueAction,
    DialogueEvent, RunStatus, Wish,
};
use rustypac::lock::FileIdentity;

const ACTIVE: &str = "XferCommand = /usr/local/bin/RustyPac %u %o";
const ORIGINAL: &[u8] = b"[options]\nColor\n";
const PLANNED: &[u8] = b"[options]\nColor\nXferCommand = /usr/local/bin/RustyPac %u %o\n";

struct Run {
    status: RunStatus,
    output: String,
    contents: Vec<u8>,
}

fn converse(
    wish: Wish,
    contents: &[u8],
    answers: &[Result<&str, &str>],
    privileged: bool,
) -> Run {
    let mut contents = contents.to_vec();
    let mut output = String::new();
    let mut answers = answers.iter();
    let mut dialogue = Dialogue::new(wish, "/tmp/pacman.conf", privileged);
    loop {
        let event = match dialogue.action() {
            DialogueAction::Read => DialogueEvent::Contents(Ok(contents.clone())),
            DialogueAction::Ask { question } => {
                output.push_str(question);
                output.push(' ');
                match answers.next().copied().unwrap_or(Ok("")) {
                    Ok(line) => DialogueEvent::Answer(Ok(line.to_owned())),
                    Err(reason) => DialogueEvent::Answer(Err(reason.to_owned())),
                }
            }
            DialogueAction::Apply => {
                contents = dialogue.plan().unwrap().contents().to_vec();
                DialogueEvent::Applied(Ok(None))
            }
            DialogueAction::Return { status } => return Run { status, output, contents },
        };
        let (next, text) = dialogue.handle(event);
        dialogue = next;
        output.push_str(&text);
    }
}

#[test]
fn production_path_is_fixed_while_interactions_require_an_explicit_fixture() {
    assert_eq!(production_config_path(), "/etc/pacman.conf");

    let run = converse(Wish::Enable, ORIGINAL, &[Ok("y\n")], true);

    assert_eq!(run.status, RunStatus::Success);
    assert!(String::from_utf8(run.contents).unwrap().contains(ACTIVE));
}

#[test]
fn enable_rejection_accepts_only_y_and_does_not_write() {
    for answer in ["\n", "n\n", "yes\n", "Y \n"] {
        let run = converse(Wish::Enable, ORIGINAL, &[Ok(answer)], false);

        assert_eq!(run.status, RunStatus::Success, "{}", run.output);
        assert_eq!(run.contents, ORIGINAL);
        assert_eq!(
            run.output,
            "RustyPac: changing pacman.conf requires sudo\nEnable RustyPac? [y/N] RustyPac enable cancelled\n"
        );
    }
}

#[test]
fn enable_accepts_lowercase_y() {
    let run = converse(Wish::Enable, ORIGINAL, &[Ok("y\n")], true);

    assert_eq!(run.status, RunStatus::Success, "{}", run.output);
    assert!(String::from_utf8(run.contents).unwrap().contains(ACTIVE));
    assert_eq!(run.output, "Enable RustyPac? [y/N] RustyPac is now active\n");
}

#[test]
fn disable_rejection_accepts_only_y_and_does_not_write() {
    let original = format!("[options]\n{ACTIVE}\nColor\n");

    let run = converse(Wish::Disable, original.as_bytes(), &[Ok("yes\n")], true);

    assert_eq!(run.status, RunStatus::Success, "{}", run.output);
    assert_eq!(run.contents, original.as_bytes());
    assert_eq!(run.output, "Disable RustyPac? [y/N] RustyPac disable cancelled\n");
}

#[test]
fn disable_e_restores_existing_while_other_responses_select_default() {
    for (choice, restored) in [("e\n", true), ("E\n", true), ("\n", false), ("x\n", false)] {
        let original = format!(
            "[options]\n## Pre-RustyPac XferCommand ## XferCommand = /usr/bin/curl %u -o %o\n{ACTIVE}\n"
        );

        let run = converse(Wish::Disable, original.as_bytes(), &[Ok("Y\n"), Ok(choice)], true);

        assert_eq!(run.status, RunStatus::Success, "{}", run.output);
        assert!(run.output.contains(
            "Revert to existing XferCommand [e] or to default pacman behaviour? [enter]"
        ));
        let changed = String::from_utf8(run.contents).unwrap();
        assert_eq!(
            changed.contains("\nXferCommand = /usr/bin/curl %u -o %o\n"),
            restored
        );
        assert!(changed.contains("#XferCommand = /usr/local/bin/RustyPac %u %o"));
        assert_eq!(
            changed.contains("## Pre-RustyPac XferCommand ##"),
            !restored
        );
    }
}

#[test]
fn absent_and_disabled_commands_report_their_state_without_writing() {
    for (contents, expected) in [
        ("[options]\nColor\n", "RustyPac is absent"),
        (
            "[options]\n#XferCommand = /usr/local/bin/RustyPac %u %o\n",
            "RustyPac is already disabled",
        ),
        (
            "XferCommand = curl\n",
            "RustyPac is absent; another XferCommand is active: XferCommand = curl",
        ),
    ] {
        let run = converse(Wish::Disable, contents.as_bytes(), &[Ok("Y\n")], true);

        assert_eq!(run.status, RunStatus::Success, "{}", run.output);
        assert_eq!(run.contents, contents.as_bytes());
        assert_eq!(run.output, format!("{expected}\n"));
    }
}

#[test]
fn second_prompt_read_error_fails_closed_without_writing() {
    let original = format!(
        "[options]\n## Pre-RustyPac XferCommand ## XferCommand = /usr/bin/curl %u -o %o\n{ACTIVE}\n"
    );

    let run = converse(
        Wish::Disable,
        original.as_bytes(),
        &[Ok("Y\n"), Err("injected second prompt failure")],
        true,
    );

    assert_eq!(run.status, RunStatus::Failure);
    assert_eq!(run.contents, original.as_bytes());
    assert!(run.output.contains("failed to read response"));
}

#[test]
fn an_active_program_is_not_enabled_again() {
    let run = converse(Wish::Enable, PLANNED, &[], true);
    assert_eq!(run.status, RunStatus::Success);
    assert_eq!(run.output, "RustyPac is already active\n");
}

#[test]
fn a_bad_configuration_is_reported_with_the_way_out() {
    let run = converse(Wish::Enable, b"XferCommand curl\n", &[], false);
    assert_eq!(run.status, RunStatus::Failure);
    assert_eq!(
        run.output,
        "RustyPac: failed to inspect /tmp/pacman.conf: invalid pacman configuration: XferCommand is missing '='\nRustyPac: rerun with sudo to modify pacman.conf\n"
    );
}

#[test]
fn failures_to_read_and_update_are_reported() {
    let dialogue = Dialogue::new(Wish::Disable, "conf", true);
    let (dialogue, text) = dialogue.handle(DialogueEvent::Contents(Err("missing".to_owned())));
    assert_eq!(text, "RustyPac: failed to read conf: missing\n");
    assert_eq!(
        dialogue.action(),
        DialogueAction::Return { status: RunStatus::Failure }
    );

    let dialogue = Dialogue::new(Wish::Enable, "conf", true);
    let (dialogue, _) = dialogue.handle(DialogueEvent::Contents(Ok(ORIGINAL.to_vec())));
    let (dialogue, _) = dialogue.handle(DialogueEvent::Answer(Ok("Y\r\n".to_owned())));
    let (dialogue, text) = dialogue.handle(DialogueEvent::Applied(Err("denied".to_owned())));
    assert_eq!(text, "RustyPac: failed to update conf: denied\n");
    assert_eq!(
        dialogue.action(),
        DialogueAction::Return { status: RunStatus::Failure }
    );
}

#[test]
fn a_directory_that_is_left_is_reported() {
    let dialogue = Dialogue::new(Wish::Enable, "conf", true);
    let (dialogue, _) = dialogue.handle(DialogueEvent::Contents(Ok(ORIGINAL.to_vec())));
    let (dialogue, _) = dialogue.handle(DialogueEvent::Answer(Ok("y".to_owned())));
    let (_, text) = dialogue.handle(DialogueEvent::Applied(Ok(Some("/etc/stage".to_owned()))));
    assert_eq!(
        text,
        "RustyPac: configuration was updated, but cleanup remains at /etc/stage\nRustyPac is now active\n"
    );
}

#[test]
fn answers_are_single_letters() {
    for (line, yes) in [("y", true), ("Y\n", true), ("y\r\n", true), ("y ", false), ("", false)] {
        assert_eq!(is_confirmation(line), yes);
    }
    assert_eq!(disable_choice("e\n"), DisableChoice::Existing);
    assert_eq!(disable_choice("E"), DisableChoice::Existing);
    assert_eq!(disable_choice("exit\n"), DisableChoice::Default);
    assert_eq!(exit_code(RunStatus::Success), 0);
    assert_eq!(exit_code(RunStatus::Failure), 1);
}

fn identity(inode: u64) -> FileIdentity {
    FileIdentity { device: 1, inode }
}

fn plan() -> EditPlan {
    plan_enable(ORIGINAL, "/usr/local/bin/RustyPac").unwrap()
}

fn application(plan: &EditPlan) -> Application<'_> {
    Application::new(plan)
}

fn source(contents: &[u8], regular: bool, links: u64) -> ApplyEvent {
    ApplyEvent::SourceRead { identity: identity(1), regular, links, contents: contents.to_vec() }
}

fn exchanged(plan: &EditPlan) -> Application<'_> {
    let mut application = application(plan);
    for (action, event) in [
        (ApplyAction::TakeEditLock, ApplyEvent::LockTaken { contents: Vec::new() }),
        (ApplyAction::MarkEditLock { fresh: true }, ApplyEvent::LockMarked),
        (ApplyAction::ReadSource, source(ORIGINAL, true, 1)),
        (
            ApplyAction::AllocateStage,
            ApplyEvent::StageAllocated { directory: "/etc/stage".to_owned() },
        ),
        (ApplyAction::Stage, ApplyEvent::Staged { contents: PLANNED.to_vec() }),
        (ApplyAction::Exchange, ApplyEvent::Exchanged),
    ] {
        assert_eq!(application.action(), action);
        application = application.handle(event);
    }
    assert_eq!(application.action(), ApplyAction::ReadDisplaced);
    application
}

fn displaced(plan: &EditPlan) -> Application<'_> {
    let application = exchanged(plan).handle(ApplyEvent::DisplacedRead {
        identity: identity(1),
        contents: ORIGINAL.to_vec(),
    });
    assert_eq!(application.action(), ApplyAction::InspectStage);
    application
}

#[test]
fn an_edit_takes_the_place_of_the_configuration() {
    let plan = plan();
    let application = displaced(&plan)
        .handle(ApplyEvent::StageInspected { found: Some(identity(1)) });
    assert_eq!(application.action(), ApplyAction::RemoveStage { file: true });
    let application = application.handle(ApplyEvent::StageRemoved { left: None });
    assert_eq!(application.action(), ApplyAction::Return);
    assert_eq!(application.outcome(), Some(Ok(ApplyOutcome::Applied)));
}

#[test]
fn a_displaced_file_that_is_gone_needs_no_removal() {
    let plan = plan();
    let application = displaced(&plan).handle(ApplyEvent::StageInspected { found: None });
    assert_eq!(application.action(), ApplyAction::RemoveStage { file: false });
    let application = application.handle(ApplyEvent::StageRemoved { left: None });
    assert_eq!(application.outcome(), Some(Ok(ApplyOutcome::Applied)));
}

#[test]
fn a_foreign_file_is_left_where_the_displaced_one_was() {
    let plan = plan();
    let pending = Some(Ok(ApplyOutcome::AppliedWithCleanupPending {
        staging_directory: "/etc/stage".to_owned(),
    }));
    let application = displaced(&plan)
        .handle(ApplyEvent::StageInspected { found: Some(identity(2)) });
    assert_eq!(application.outcome(), pending);
    let application = displaced(&plan)
        .handle(ApplyEvent::StageInspected { found: None })
        .handle(ApplyEvent::StageRemoved { left: Some("/etc/stage".to_owned()) });
    assert_eq!(application.outcome(), pending);
}

#[test]
fn a_configuration_that_changed_before_the_exchange_is_put_back() {
    let plan = plan();
    for (inode, contents) in [(2, ORIGINAL), (1, b"[options]\nCheckSpace\n".as_slice())] {
        let application = exchanged(&plan).handle(ApplyEvent::DisplacedRead {
            identity: identity(inode),
            contents: contents.to_vec(),
        });
        assert_eq!(application.action(), ApplyAction::ExchangeBack);
        let application = application.handle(ApplyEvent::ExchangedBack);
        assert_eq!(application.action(), ApplyAction::DiscardStage);
        let application = application.handle(ApplyEvent::Discarded);
        assert_eq!(application.outcome(), Some(Err(ConfigError::ChangedDuringEdit)));
    }
}

#[test]
fn an_edit_is_refused_before_anything_is_changed() {
    let plan = plan();
    let refused = |lock: &[u8], event: ApplyEvent| {
        application(&plan)
            .handle(ApplyEvent::LockTaken { contents: lock.to_vec() })
            .handle(ApplyEvent::LockMarked)
            .handle(event)
            .outcome()
            .unwrap()
            .unwrap_err()
            .message()
    };
    let ours = b"RustyPac edit lock v1\n";
    assert_eq!(
        refused(b"foreign lock contents\n", source(ORIGINAL, true, 1)),
        "invalid pacman configuration: the edit lock does not belong to RustyPac"
    );
    assert_eq!(
        refused(ours, source(ORIGINAL, false, 1)),
        "invalid pacman configuration: the configuration is not a regular file"
    );
    assert_eq!(
        refused(ours, source(ORIGINAL, true, 2)),
        "invalid pacman configuration: the configuration has more than one hard link"
    );
    assert_eq!(
        refused(ours, source(b"other", true, 1)),
        "pacman configuration changed while the edit was pending"
    );
    assert_eq!(
        refused(ours, ApplyEvent::Failed { reason: "denied".to_owned() }),
        "pacman configuration update failed: denied"
    );
}

#[test]
fn a_bad_stage_is_discarded() {
    let plan = plan();
    let staging = || {
        application(&plan)
            .handle(ApplyEvent::LockTaken { contents: Vec::new() })
            .handle(ApplyEvent::LockMarked)
            .handle(source(ORIGINAL, true, 1))
            .handle(ApplyEvent::StageAllocated { directory: "/etc/stage".to_owned() })
    };
    let application = staging().handle(ApplyEvent::Staged { contents: b"torn".to_vec() });
    assert_eq!(application.action(), ApplyAction::DiscardStage);
    assert_eq!(
        application.handle(ApplyEvent::Discarded).outcome().unwrap().unwrap_err().message(),
        "invalid pacman configuration: staged configuration did not match the planned bytes"
    );
    let application = staging().handle(ApplyEvent::Failed { reason: "full".to_owned() });
    assert_eq!(application.action(), ApplyAction::DiscardStage);
    assert_eq!(application.contents(), PLANNED);
}

#[test]
fn a_taken_staging_name_leads_to_the_next() {
    let plan = plan();
    let mut allocating = application(&plan)
        .handle(ApplyEvent::LockTaken { contents: b"RustyPac edit lock v1\n".to_vec() });
    assert_eq!(allocating.action(), ApplyAction::MarkEditLock { fresh: false });
    allocating = allocating.handle(ApplyEvent::LockMarked).handle(source(ORIGINAL, true, 1));
    for _ in 0..99 {
        assert_eq!(allocating.action(), ApplyAction::AllocateStage);
        allocating = allocating.handle(ApplyEvent::StageNameTaken);
    }
    assert_eq!(allocating.action(), ApplyAction::AllocateStage);
    allocating = allocating.handle(ApplyEvent::StageNameTaken);
    assert_eq!(allocating.action(), ApplyAction::Return);
    assert_eq!(
        allocating.outcome().unwrap().unwrap_err().message(),
        "invalid pacman configuration: could not allocate a temporary configuration file"
    );
}

#[test]
fn a_stage_that_was_not_made_is_not_discarded() {
    let plan = plan();
    let allocating = application(&plan)
        .handle(ApplyEvent::LockTaken { contents: Vec::new() })
        .handle(ApplyEvent::LockMarked)
        .handle(source(ORIGINAL, true, 1))
        .handle(ApplyEvent::Failed { reason: "denied".to_owned() });
    assert_eq!(allocating.action(), ApplyAction::Return);
    assert_eq!(
        allocating.outcome(),
        Some(Err(ConfigError::Io("denied".to_owned())))
    );
}

#[test]
fn a_plan_that_changes_nothing_is_applied_already() {
    let plan = plan_enable(PLANNED, "/usr/local/bin/RustyPac").unwrap();
    let application = Application::new(&plan);
    assert_eq!(application.action(), ApplyAction::Return);
    assert_eq!(application.outcome(), Some(Ok(ApplyOutcome::Applied)));
}

#[test]
fn names_stand_beside_the_configuration() {
    assert_eq!(edit_lock_name("pacman.conf"), ".pacman.conf.rustypac-edit.lock");
    assert_eq!(staging_name("pacman.conf", 12, 0), ".pacman.conf.rustypac-stage-12-0");
}

use rustypac::config::{
    has_preserved_downloader, plan_disable, plan_enable, state, ConfigError, ConfigState,
    DisableChoice,
};

const ACTIVE: &str = "XferCommand = /usr/local/bin/RustyPac %u %o";

fn assert_bytes_around_relevant_line_are_unchanged(before: &[u8], after: &[u8]) {
    let prefix = b"[options]\nArchitecture = auto\n";
    let suffix = b"\nColor\n[core]\nInclude = /etc/pacman.d/mirrorlist\n";
    assert!(before.starts_with(prefix));
    assert!(before.ends_with(suffix));
    assert!(after.starts_with(prefix));
    assert!(after.ends_with(suffix));
}

#[test]
fn enabling_an_active_command_plans_no_write() {
    let contents = format!("[options]\n{ACTIVE}\nColor\n");

    let plan = plan_enable(contents.as_bytes(), "/usr/local/bin/RustyPac").unwrap();

    assert_eq!(plan.initial_state(), &ConfigState::Active);
    assert!(!plan.changed());
    assert_eq!(plan.contents(), contents.as_bytes());
}

#[test]
fn enabling_a_commented_command_uncomments_only_that_line() {
    let before = b"[options]\r\nArchitecture = auto\r\n# XferCommand = /usr/local/bin/RustyPac %u %o\r\nColor\r\n";

    let plan = plan_enable(before, "/usr/local/bin/RustyPac").unwrap();

    assert_eq!(
        plan.contents(),
        b"[options]\r\nArchitecture = auto\r\nXferCommand = /usr/local/bin/RustyPac %u %o\r\nColor\r\n"
    );
}

#[test]
fn enabling_when_absent_inserts_in_options_before_repository_sections() {
    let before = b"[options]\nArchitecture = auto\nColor\n\n[core]\nInclude = /etc/pacman.d/mirrorlist\n[extra]\nInclude = /etc/pacman.d/mirrorlist\n";

    let plan = plan_enable(before, "/usr/local/bin/RustyPac").unwrap();

    assert_eq!(
        plan.contents(),
        b"[options]\nArchitecture = auto\nColor\n\nXferCommand = /usr/local/bin/RustyPac %u %o\n[core]\nInclude = /etc/pacman.d/mirrorlist\n[extra]\nInclude = /etc/pacman.d/mirrorlist\n"
    );
}

#[test]
fn absent_enable_rejects_missing_or_ambiguous_options_sections() {
    for contents in [
        b"[core]\nInclude = /etc/pacman.d/mirrorlist\n".as_slice(),
        b"[options]\nColor\n[options]\nArchitecture = auto\n".as_slice(),
    ] {
        assert!(
            plan_enable(contents, "/usr/local/bin/RustyPac").is_err(),
            "must reject {contents:?}"
        );
    }
}

#[test]
fn enabling_preserves_a_conflicting_downloader_and_unrelated_bytes() {
    let before = b"[options]\nArchitecture = auto\nXferCommand = /usr/bin/curl --continue-at - %u -o %o\nColor\n[core]\nInclude = /etc/pacman.d/mirrorlist\n";

    let plan = plan_enable(before, "/usr/local/bin/RustyPac").unwrap();

    assert_eq!(
        plan.initial_state(),
        &ConfigState::Conflicting {
            line: "XferCommand = /usr/bin/curl --continue-at - %u -o %o".to_owned()
        }
    );
    assert_eq!(
        plan.contents(),
        b"[options]\nArchitecture = auto\n## Pre-RustyPac XferCommand ## XferCommand = /usr/bin/curl --continue-at - %u -o %o\nXferCommand = /usr/local/bin/RustyPac %u %o\nColor\n[core]\nInclude = /etc/pacman.d/mirrorlist\n"
    );
    assert_bytes_around_relevant_line_are_unchanged(before, plan.contents());
}

#[test]
fn enabling_reuses_a_preserved_downloader_and_commented_rustypac_line() {
    let before = b"## Pre-RustyPac XferCommand ## XferCommand = /usr/bin/curl %u -o %o\n#XferCommand = /usr/local/bin/RustyPac %u %o\n";

    let plan = plan_enable(before, "/usr/local/bin/RustyPac").unwrap();

    assert_eq!(
        plan.contents(),
        b"## Pre-RustyPac XferCommand ## XferCommand = /usr/bin/curl %u -o %o\nXferCommand = /usr/local/bin/RustyPac %u %o\n"
    );
}

#[test]
fn duplicated_or_malformed_relevant_lines_are_rejected() {
    for contents in [
        format!("{ACTIVE}\n{ACTIVE}\n"),
        format!("{ACTIVE}\n#{ACTIVE}\n"),
        "XferCommand /usr/bin/curl %u -o %o\n".to_owned(),
        "## Pre-RustyPac XferCommand ## not an XferCommand\n".to_owned(),
    ] {
        assert!(
            plan_enable(contents.as_bytes(), "/usr/local/bin/RustyPac").is_err(),
            "must reject {contents:?}"
        );
    }
}

#[test]
fn disabling_with_existing_choice_restores_the_preserved_command() {
    let before = format!(
        "[options]\n## Pre-RustyPac XferCommand ## XferCommand = /usr/bin/curl %u -o %o\n{ACTIVE}\nColor\n"
    );

    let plan = plan_disable(before.as_bytes(), DisableChoice::Existing).unwrap();

    assert_eq!(plan.initial_state(), &ConfigState::Active);
    assert_eq!(
        plan.contents(),
        b"[options]\nXferCommand = /usr/bin/curl %u -o %o\n#XferCommand = /usr/local/bin/RustyPac %u %o\nColor\n"
    );
}

#[test]
fn restoring_preserved_command_keeps_payload_indentation_trailing_bytes_and_crlf() {
    let before = b"[options]\r\n  ## Pre-RustyPac XferCommand ## \tXferCommand = /usr/bin/curl %u -o %o  \t\r\nXferCommand = /usr/local/bin/RustyPac %u %o\r\nColor\r\n";

    let plan = plan_disable(before, DisableChoice::Existing).unwrap();

    assert_eq!(
        plan.contents(),
        b"[options]\r\n\tXferCommand = /usr/bin/curl %u -o %o  \t\r\n#XferCommand = /usr/local/bin/RustyPac %u %o\r\nColor\r\n"
    );
}

#[test]
fn disabling_with_default_choice_keeps_preserved_command_and_comments_only_rustypac() {
    let before = format!(
        "[options]\n## Pre-RustyPac XferCommand ## XferCommand = /usr/bin/curl %u -o %o\n{ACTIVE}\nColor\n"
    );

    let plan = plan_disable(before.as_bytes(), DisableChoice::Default).unwrap();

    assert_eq!(
        plan.contents(),
        b"[options]\n## Pre-RustyPac XferCommand ## XferCommand = /usr/bin/curl %u -o %o\n#XferCommand = /usr/local/bin/RustyPac %u %o\nColor\n"
    );
}

fn message(contents: &[u8]) -> String {
    plan_enable(contents, "/usr/local/bin/RustyPac")
        .unwrap_err()
        .message()
}

#[test]
fn each_problem_is_reported_in_its_own_words() {
    let preserved = "## Pre-RustyPac XferCommand ## XferCommand = /usr/bin/curl %u -o %o\n";
    for (contents, expected) in [
        (format!("{preserved}{preserved}"), "multiple preserved XferCommand lines"),
        (format!("{ACTIVE}\n{ACTIVE}\n"), "multiple RustyPac XferCommand lines"),
        (
            "XferCommand = a\nXferCommand = b\n".to_owned(),
            "multiple active XferCommand lines",
        ),
        (
            format!("{ACTIVE}\nXferCommand = b\n"),
            "RustyPac and another XferCommand are both active",
        ),
        (
            format!("{preserved}XferCommand = b\n"),
            "both an active downloader and a preserved downloader are present",
        ),
        (
            "## Pre-RustyPac XferCommand ## curl\n".to_owned(),
            "malformed preserved XferCommand",
        ),
        ("XferCommand curl\n".to_owned(), "XferCommand is missing '='"),
        ("XferCommand =  \t\n".to_owned(), "XferCommand has no command"),
        (
            "#XferCommand = /usr/local/bin/RustyPac %u\n".to_owned(),
            "malformed commented RustyPac XferCommand",
        ),
        ("Color\n".to_owned(), "no [options] section for the XferCommand"),
        ("[options]\n[options]\n".to_owned(), "multiple [options] sections"),
    ] {
        assert_eq!(
            message(contents.as_bytes()),
            format!("invalid pacman configuration: {expected}")
        );
    }
}

#[test]
fn an_active_command_must_be_text() {
    let error = state(b"XferCommand = \xff %u %o\n").unwrap_err();
    assert_eq!(
        error,
        ConfigError::Invalid("active XferCommand is not valid UTF-8".to_owned())
    );
    let named = state("XferCommand = /usr/bin/kü %u %o\n".as_bytes()).unwrap();
    assert_eq!(
        named,
        ConfigState::Conflicting { line: "XferCommand = /usr/bin/kü %u %o".to_owned() }
    );
}

#[test]
fn a_preserved_command_must_be_text_to_be_restored() {
    let mut before = b"## Pre-RustyPac XferCommand ## XferCommand = \xff\n".to_vec();
    before.extend_from_slice(ACTIVE.as_bytes());
    assert_eq!(
        plan_disable(&before, DisableChoice::Existing).unwrap_err(),
        ConfigError::Invalid("preserved XferCommand is not valid UTF-8".to_owned())
    );
    assert!(plan_disable(&before, DisableChoice::Default).is_ok());
}

#[test]
fn errors_say_what_happened() {
    assert_eq!(
        ConfigError::ChangedDuringEdit.message(),
        "pacman configuration changed while the edit was pending"
    );
    assert_eq!(
        ConfigError::Io("disk full".to_owned()).message(),
        "pacman configuration update failed: disk full"
    );
}

#[test]
fn states_are_told_apart() {
    assert_eq!(state(b"").unwrap(), ConfigState::Absent);
    assert_eq!(state(format!("#{ACTIVE}").as_bytes()).unwrap(), ConfigState::Disabled);
    assert_eq!(state(format!("\t{ACTIVE}  ").as_bytes()).unwrap(), ConfigState::Active);
    assert_eq!(
        state(b"XferCommand=curl").unwrap(),
        ConfigState::Conflicting { line: "XferCommand=curl".to_owned() }
    );
    assert_eq!(state(b"XferCommands = curl\n").unwrap(), ConfigState::Absent);
}

#[test]
fn a_preserved_downloader_is_found() {
    assert!(!has_preserved_downloader(ACTIVE.as_bytes()).unwrap());
    assert!(has_preserved_downloader(
        b"  ## Pre-RustyPac XferCommand ## XferCommand = curl\n"
    )
    .unwrap());
}

#[test]
fn enabling_ends_a_last_line_that_has_no_ending() {
    let plan = plan_enable(b"[options]\nColor", "/usr/local/bin/RustyPac").unwrap();
    assert_eq!(plan.contents(), format!("[options]\nColor\n{ACTIVE}\n").as_bytes());
    let plan = plan_enable(b"[options]\r\nColor", "/usr/local/bin/RustyPac").unwrap();
    assert_eq!(plan.contents(), format!("[options]\r\nColor\r\n{ACTIVE}\r\n").as_bytes());
    let plan = plan_enable(b"XferCommand = curl", "/usr/local/bin/RustyPac").unwrap();
    assert_eq!(
        plan.contents(),
        format!("## Pre-RustyPac XferCommand ## XferCommand = curl\n{ACTIVE}\n").as_bytes()
    );
}

#[test]
fn every_plan_passes_its_own_checks() {
    for before in [
        "[options]\nColor\n",
        "[options]\nXferCommand = curl %u\n[core]\n",
        "[options]\n  #  XferCommand = /usr/local/bin/RustyPac %u %o\n",
    ] {
        let plan = plan_enable(before.as_bytes(), "/usr/local/bin/RustyPac").unwrap();
        assert!(plan.changed());
        assert_eq!(plan.staged_refusal(plan.contents()), None);
        assert!(plan.verify_source(before.as_bytes()).is_ok());
        assert_eq!(
            plan.verify_source(b"other"),
            Err(ConfigError::ChangedDuringEdit)
        );
        assert!(plan.staged_refusal(b"other").is_some());
    }
}

#[test]
fn enabling_twice_and_disabling_twice_change_nothing_more() {
    let once = plan_enable(b"[options]\nColor\n", "/usr/local/bin/RustyPac").unwrap();
    let twice = plan_enable(once.contents(), "/usr/local/bin/RustyPac").unwrap();
    assert!(!twice.changed());
    let off = plan_disable(once.contents(), DisableChoice::Default).unwrap();
    assert_eq!(off.contents(), format!("[options]\nColor\n#{ACTIVE}\n").as_bytes());
    let off_again = plan_disable(off.contents(), DisableChoice::Existing).unwrap();
    assert!(!off_again.changed());
    let on_again = plan_enable(off.contents(), "/usr/local/bin/RustyPac").unwrap();
    assert_eq!(on_again.contents(), once.contents());
}

#[test]
fn disabling_after_enabling_restores_the_downloader() {
    let before = "[options]\n  XferCommand = curl %u \nColor\n";
    let on = plan_enable(before.as_bytes(), "/usr/local/bin/RustyPac").unwrap();
    let off = plan_disable(on.contents(), DisableChoice::Existing).unwrap();
    assert_eq!(
        off.contents(),
        format!("[options]\n  XferCommand = curl %u \n#{ACTIVE}\nColor\n").as_bytes()
    );
    assert_eq!(
        state(off.contents()).unwrap(),
        ConfigState::Conflicting { line: "  XferCommand = curl %u ".to_owned() }
    );
}

#[test]
fn a_configuration_that_preserves_the_program_itself_is_not_restored() {
    let before = format!("## Pre-RustyPac XferCommand ## {ACTIVE}\n{ACTIVE}\n");
    let plan = plan_disable(before.as_bytes(), DisableChoice::Existing).unwrap();
    assert!(plan.staged_refusal(plan.contents()).is_some());
}

#[test]
fn enabling_leaves_all_other_lines_and_names_the_program_once() {
    let kept = ["[options]", "Color", "# a comment", "[core]", "Server = s"];
    let named = "XferCommand = /usr/bin/curl %u -o %o";
    let aside = "## Pre-RustyPac XferCommand ## XferCommand = /usr/bin/curl %u -o %o";
    let commented = format!("# {ACTIVE}");
    for (own, added) in [
        (vec![], 1),
        (vec![named], 1),
        (vec![aside], 1),
        (vec![commented.as_str()], 0),
        (vec![named, commented.as_str()], 0),
        (vec![aside, commented.as_str()], 0),
        (vec![ACTIVE], 0),
        (vec![aside, ACTIVE], 0),
    ] {
        let mut lines: Vec<&str> = kept.to_vec();
        for line in own {
            lines.insert(1, line);
        }
        let contents = lines.join("\n") + "\n";
        let plan = plan_enable(contents.as_bytes(), "/usr/local/bin/RustyPac").unwrap();
        let edited = String::from_utf8(plan.contents().to_vec()).unwrap();
        assert_eq!(edited.lines().count(), lines.len() + added);
        assert_eq!(edited.lines().filter(|line| *line == ACTIVE).count(), 1);
        assert!(!edited.lines().any(|line| line == commented || line == named));
        assert_eq!(
            edited.lines().filter(|line| *line == aside).count(),
            usize::from(contents.contains("curl"))
        );
        let others: Vec<&str> = edited
            .lines()
            .filter(|line| *line != ACTIVE && *line != aside)
            .collect();
        assert_eq!(others, kept);
    }
}

#[test]
fn disabling_adds_and_removes_no_line() {
    let contents = format!("[options]\n{ACTIVE}\n");
    let plan = plan_disable(contents.as_bytes(), DisableChoice::Default).unwrap();
    assert_eq!(plan.contents(), format!("[options]\n#{ACTIVE}\n").as_bytes());
    let plan = plan_disable(ACTIVE.as_bytes(), DisableChoice::Default).unwrap();
    assert_eq!(plan.contents(), format!("#{ACTIVE}").as_bytes());
}

#[test]
fn only_a_restored_downloader_is_no_longer_preserved() {
    let aside = "## Pre-RustyPac XferCommand ## XferCommand = /usr/bin/curl %u -o %o";
    let contents = format!("[options]\n  {aside}\n{ACTIVE}\n");
    assert!(has_preserved_downloader(contents.as_bytes()).unwrap());
    let plan = plan_disable(contents.as_bytes(), DisableChoice::Default).unwrap();
    assert!(has_preserved_downloader(plan.contents()).unwrap());
    let plan = plan_disable(contents.as_bytes(), DisableChoice::Existing).unwrap();
    assert!(!has_preserved_downloader(plan.contents()).unwrap());
    let contents = format!("[options]\n{ACTIVE}\n");
    let plan = plan_disable(contents.as_bytes(), DisableChoice::Default).unwrap();
    assert!(!has_preserved_downloader(plan.contents()).unwrap());
}

use rustypac::lock::{
    may_release, owner_record, parse_owner_record, parse_proc_start_time, proc_path, Acquisition,
    FileIdentity, LockAction, LockError, LockEvent, LockSnapshot, OwnerRecord,
};

const SELF_STAT: &str =
    "77 (RustyPac) S 1 2 3 4 5 6 7 8 9 10 11 12 13 14 15 16 17 18 5000 20";

fn stat(start_time: u64) -> String {
    format!("9 (a) b) S 1 2 3 4 5 6 7 8 9 10 11 12 13 14 15 16 17 18 {start_time} 20")
}

fn identity(inode: u64) -> FileIdentity {
    FileIdentity { device: 1, inode }
}

fn me() -> OwnerRecord {
    OwnerRecord { pid: 77, start_time: 5_000 }
}

fn started() -> Acquisition {
    let mut acquisition = Acquisition::new("dir/package.part", 77);
    assert_eq!(acquisition.path(), "dir/package.part.rustypac.lock");
    assert_eq!(acquisition.action(), LockAction::ReadSelf);
    acquisition.handle(LockEvent::SelfRead(Ok(SELF_STAT.to_owned())));
    assert_eq!(acquisition.action(), LockAction::Create { owner: me() });
    acquisition
}

fn found(contents: &str) -> Acquisition {
    let mut acquisition = started();
    acquisition.handle(LockEvent::Exists);
    assert_eq!(acquisition.action(), LockAction::Read);
    acquisition.handle(LockEvent::LockRead {
        contents: contents.to_owned(),
        identity: identity(4),
    });
    acquisition
}

fn refusal(acquisition: Acquisition) -> LockError {
    assert_eq!(acquisition.action(), LockAction::Return);
    acquisition.outcome().unwrap().unwrap_err()
}

#[test]
fn proc_stat_parser_uses_field_22_after_the_final_closing_parenthesis() {
    let stat = "4321 (worker name (nested) parens) S 1 2 3 4 5 6 7 8 9 10 11 12 13 14 15 16 17 18 987654 20";

    assert_eq!(parse_proc_start_time(stat).unwrap(), 987_654);
}

#[test]
fn bad_process_records_are_told_apart() {
    for (contents, expected) in [
        ("12 comm S 1", "process name has no closing parenthesis"),
        ("12 (comm)", "start-time field 22 is missing"),
        (
            "12 (comm) S 1 2 3 4 5 6 7 8 9 10 11 12 13 14 15 16 17 18",
            "start-time field 22 is missing",
        ),
        (
            "12 (comm) S 1 2 3 4 5 6 7 8 9 10 11 12 13 14 15 16 17 18 x",
            "start-time field 22 is invalid",
        ),
    ] {
        assert_eq!(parse_proc_start_time(contents).unwrap_err(), expected);
    }
}

#[test]
fn owner_records_are_read_as_they_are_written() {
    for owner in [me(), OwnerRecord { pid: 0, start_time: 0 }, OwnerRecord {
        pid: u32::MAX,
        start_time: u64::MAX,
    }] {
        let contents = owner_record(owner);
        assert_eq!(contents, format!("{} {}\n", owner.pid, owner.start_time));
        assert_eq!(parse_owner_record(&contents), Ok(owner));
    }
    assert_eq!(
        parse_owner_record("\u{2003}7\u{a0}8\t"),
        Ok(OwnerRecord { pid: 7, start_time: 8 })
    );
}

#[test]
fn bad_owner_records_are_told_apart() {
    for (contents, expected) in [
        ("", "owner PID is missing"),
        (" \n", "owner PID is missing"),
        ("x 1", "owner PID is invalid"),
        ("4294967296 1", "owner PID is invalid"),
        ("1", "owner start time is missing"),
        ("1 y", "owner start time is invalid"),
        ("1 2 3", "owner record has unexpected fields"),
    ] {
        assert_eq!(parse_owner_record(contents).unwrap_err(), expected);
    }
}

#[test]
fn a_lock_that_is_not_there_is_created() {
    let mut acquisition = started();
    acquisition.handle(LockEvent::Created { identity: identity(9) });
    assert_eq!(acquisition.action(), LockAction::Return);
    acquisition.handle(LockEvent::Exists);
    assert_eq!(
        acquisition.outcome().unwrap().unwrap(),
        LockSnapshot { owner: me(), identity: identity(9) }
    );
}

#[test]
fn a_live_owner_keeps_its_lock() {
    let mut acquisition = found("9 123\n");
    assert_eq!(acquisition.action(), LockAction::ReadProcess { pid: 9 });
    acquisition.handle(LockEvent::ProcessRead { contents: stat(123) });
    let error = refusal(acquisition);
    assert!(matches!(error, LockError::Held { pid: 9 }));
    assert_eq!(error.message(), "output is locked by live process 9");
}

#[test]
fn a_stale_lock_is_removed_and_taken() {
    for event in [
        LockEvent::ProcessMissing,
        LockEvent::ProcessRead { contents: stat(124) },
    ] {
        let mut acquisition = found("9 123\n");
        acquisition.handle(event);
        assert_eq!(acquisition.action(), LockAction::ReadGuarded);
        acquisition.handle(LockEvent::LockRead {
            contents: "9 123\n".to_owned(),
            identity: identity(4),
        });
        assert_eq!(acquisition.action(), LockAction::Remove);
        acquisition.handle(LockEvent::Removed(Ok(())));
        assert_eq!(acquisition.action(), LockAction::Create { owner: me() });
        acquisition.handle(LockEvent::Created { identity: identity(5) });
        assert!(acquisition.outcome().unwrap().is_ok());
    }
}

#[test]
fn a_lock_that_changed_in_the_meantime_is_left() {
    for (contents, inode) in [("9 123\n", 5), ("10 123\n", 4)] {
        let mut acquisition = found("9 123\n");
        acquisition.handle(LockEvent::ProcessMissing);
        acquisition.handle(LockEvent::LockRead {
            contents: contents.to_owned(),
            identity: identity(inode),
        });
        assert_eq!(
            refusal(acquisition).message(),
            "cannot verify lock dir/package.part.rustypac.lock: lock changed while verifying stale ownership"
        );
    }
    let mut acquisition = found("9 123\n");
    acquisition.handle(LockEvent::ProcessMissing);
    acquisition.handle(LockEvent::LockRead {
        contents: "9 123\n".to_owned(),
        identity: identity(4),
    });
    acquisition.handle(LockEvent::Removed(Ok(())));
    acquisition.handle(LockEvent::Exists);
    assert_eq!(
        refusal(acquisition).message(),
        "cannot verify lock dir/package.part.rustypac.lock: lock changed while recovering stale ownership"
    );
}

#[test]
fn a_malformed_lock_is_left() {
    let error = refusal(found("not a verifiable owner record\n"));
    assert!(matches!(error, LockError::Unverifiable { .. }));
    assert_eq!(
        error.message(),
        "cannot verify lock dir/package.part.rustypac.lock: owner PID is invalid"
    );
}

#[test]
fn an_owner_that_cannot_be_looked_for_keeps_its_lock() {
    let mut acquisition = found("9 123\n");
    acquisition.handle(LockEvent::ProcessUnread { reason: "denied".to_owned() });
    assert_eq!(
        refusal(acquisition).message(),
        "cannot verify lock dir/package.part.rustypac.lock: cannot read /proc/9/stat: denied"
    );
    let mut acquisition = found("9 123\n");
    acquisition.handle(LockEvent::ProcessRead { contents: "junk".to_owned() });
    assert_eq!(
        refusal(acquisition).message(),
        "cannot verify lock dir/package.part.rustypac.lock: invalid /proc/9/stat: process name has no closing parenthesis"
    );
}

#[test]
fn failures_name_the_operation() {
    let mut acquisition = Acquisition::new("out", 77);
    acquisition.handle(LockEvent::SelfRead(Err("gone".to_owned())));
    assert_eq!(
        refusal(acquisition).message(),
        "failed to read process identity from lock /proc/77/stat: gone"
    );
    let mut acquisition = Acquisition::new("out", 77);
    acquisition.handle(LockEvent::SelfRead(Ok("junk".to_owned())));
    assert!(matches!(
        refusal(acquisition),
        LockError::Unverifiable { path, .. } if path == "/proc/77/stat"
    ));
    let mut acquisition = started();
    acquisition.handle(LockEvent::NotCreated {
        operation: "create",
        reason: "denied".to_owned(),
    });
    assert_eq!(
        refusal(acquisition).message(),
        "failed to create lock dir/package.part.rustypac.lock: denied"
    );
    let mut acquisition = started();
    acquisition.handle(LockEvent::Exists);
    acquisition.handle(LockEvent::LockUnread { operation: "read", reason: "denied".to_owned() });
    assert!(matches!(refusal(acquisition), LockError::Io { operation: "read", .. }));
    let mut acquisition = found("9 123\n");
    acquisition.handle(LockEvent::ProcessMissing);
    acquisition.handle(LockEvent::LockRead {
        contents: "9 123\n".to_owned(),
        identity: identity(4),
    });
    acquisition.handle(LockEvent::Removed(Err("busy".to_owned())));
    assert!(matches!(refusal(acquisition), LockError::Io { operation: "remove stale", .. }));
}

#[test]
fn only_the_lock_that_was_taken_is_released() {
    let held = LockSnapshot { owner: me(), identity: identity(4) };
    let record = owner_record(me());
    assert!(may_release(held, &record, identity(4), identity(4)));
    assert!(!may_release(held, &record, identity(5), identity(4)));
    assert!(!may_release(held, &record, identity(4), identity(5)));
    assert!(!may_release(held, "77 5001\n", identity(4), identity(4)));
    assert!(!may_release(held, "", identity(4), identity(4)));
}

#[test]
fn process_records_have_their_place() {
    assert_eq!(proc_path(12), "/proc/12/stat");
}

fn read(contents: &str, inode: u64) -> LockEvent {
    LockEvent::LockRead { contents: contents.to_owned(), identity: identity(inode) }
}

#[test]
fn one_of_two_recoveries_has_the_lock() {
    let mut first = found("9 123\n");
    let mut second = found("9 123\n");
    first.handle(LockEvent::ProcessMissing);
    second.handle(LockEvent::ProcessMissing);
    first.handle(read("9 123\n", 4));
    assert_eq!(first.action(), LockAction::Remove);
    first.handle(LockEvent::Removed(Ok(())));
    first.handle(LockEvent::Created { identity: identity(5) });
    assert_eq!(second.action(), LockAction::ReadGuarded);
    second.handle(read(&owner_record(me()), 5));
    assert_eq!(
        refusal(second).message(),
        "cannot verify lock dir/package.part.rustypac.lock: lock changed while verifying stale ownership"
    );
    assert_eq!(
        first.outcome().unwrap().unwrap(),
        LockSnapshot { owner: me(), identity: identity(5) }
    );

    let mut third = started();
    third.handle(LockEvent::Exists);
    third.handle(read(&owner_record(me()), 5));
    assert_eq!(third.action(), LockAction::ReadProcess { pid: 77 });
    third.handle(LockEvent::ProcessRead { contents: SELF_STAT.to_owned() });
    assert!(matches!(refusal(third), LockError::Held { pid: 77 }));
}

#[test]
fn a_lock_that_is_not_written_yet_is_left() {
    let second = found("");
    assert_eq!(
        refusal(second).message(),
        "cannot verify lock dir/package.part.rustypac.lock: owner PID is missing"
    );
}

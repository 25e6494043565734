use rustypac::download::{
    exit_code, is_terminal, reconcile, Action, DownloadOutcome, Event, OutputStamp, PauseTransition, Removal, Snapshot, Transfer, TransferError, TransferState,
};
use rustypac::paths::{display_filename, file_name, is_database_signature, lock_path, sidecar_path};
use rustypac::progress::{DisplayState, Duration};
use rustypac::signals::{ControlRequest, SignalEvent};

fn snapshot(state: TransferState) -> Snapshot {
    Snapshot {
        state,
        downloaded: 40,
        total_size: Some(100),
        bytes_per_second: Some(10),
        eta: Some(Duration::from_secs(6)),
    }
}

fn ended(result: Result<(), TransferError>) -> Event {
    Event::Ended {
        result,
        snapshot: snapshot(TransferState::Downloading),
        elapsed: Duration::from_secs(4),
    }
}

fn control(request: ControlRequest) -> Event {
    Event::Control {
        request,
        snapshot: snapshot(TransferState::Downloading),
        elapsed: Duration::from_secs(4),
    }
}

fn saved() -> Event {
    Event::Saved { resume: Some(vec![1, 2, 3]), output: Some(STAMP) }
}

const STAMP: OutputStamp = OutputStamp {
    device: 1,
    inode: 2,
    size: 3,
    modified_secs: 4,
    modified_nanos: 5,
};

fn driving(url: &str, output: &str) -> Transfer {
    driving_after(url, output, saved())
}

fn driving_after(url: &str, output: &str, saved: Event) -> Transfer {
    let mut transfer = Transfer::new(url, output);
    for (action, event) in [
        (Action::AcquireLock, Event::Locked { acquired: true }),
        (Action::SaveCheckpoint, saved),
        (Action::StartTransfer, Event::Started { running: true }),
        (Action::Draw { force: false }, Event::Drawn { drawn: true }),
    ] {
        assert_eq!(transfer.action(), action);
        transfer.handle(event);
    }
    assert_eq!(transfer.action(), Action::AwaitNews { controls: true });
    transfer
}

fn package() -> Transfer {
    driving("https://mirror/p.pkg.tar.zst", "/cache/p.pkg.tar.zst.part")
}

fn finish(mut transfer: Transfer) -> (DownloadOutcome, DisplayState) {
    if transfer.action() == Action::StampOutput {
        transfer.handle(Event::Stamped { output: None });
    }
    assert_eq!(transfer.action(), Action::Finish);
    let state = transfer.model().state;
    transfer.handle(Event::Drawn { drawn: true });
    match transfer.action() {
        Action::Return { outcome } => (outcome, state),
        action => panic!("{action:?}"),
    }
}

fn fail(mut transfer: Transfer, error: TransferError) -> (DownloadOutcome, DisplayState) {
    transfer.handle(Event::ProgressClosed);
    assert_eq!(transfer.action(), Action::Wait);
    transfer.handle(ended(Err(error)));
    finish(transfer)
}

#[test]
fn a_download_runs_to_completion() {
    let mut transfer = package();
    assert_eq!(transfer.model().filename, "p.pkg.tar.zst");
    transfer.handle(Event::Progress {
        snapshot: snapshot(TransferState::Downloading),
        elapsed: Duration::from_secs(4),
    });
    assert_eq!(transfer.action(), Action::Draw { force: false });
    assert_eq!(transfer.model().downloaded, 40);
    assert_eq!(transfer.model().eta, Some(Duration::from_secs(6)));
    transfer.handle(Event::Drawn { drawn: true });
    transfer.handle(Event::Progress {
        snapshot: snapshot(TransferState::Completed),
        elapsed: Duration::from_secs(9),
    });
    transfer.handle(Event::Drawn { drawn: true });
    assert_eq!(transfer.action(), Action::Wait);
    transfer.handle(ended(Ok(())));
    assert_eq!(transfer.action(), Action::InspectOutput);
    transfer.handle(Event::Inspected { size: Some(100), readable: true });
    assert_eq!(transfer.action(), Action::RemoveSidecar);
    transfer.handle(Event::Cleaned {
        removal: Removal::Missing,
        average: Some(11),
        elapsed: Duration::from_secs(9),
    });
    assert_eq!(transfer.model().downloaded, 100);
    assert_eq!(transfer.model().total, Some(100));
    assert_eq!(transfer.model().bytes_per_second, Some(11));
    assert_eq!(transfer.model().eta, None);
    assert_eq!(finish(transfer), (DownloadOutcome::Completed, DisplayState::Success));
}

#[test]
fn an_output_that_is_not_good_fails() {
    for event in [
        Event::Inspected { size: None, readable: false },
        Event::Inspected { size: Some(0), readable: false },
        Event::Inspected { size: Some(5), readable: false },
    ] {
        let mut transfer = package();
        transfer.handle(Event::ProgressClosed);
        transfer.handle(ended(Ok(())));
        transfer.handle(event);
        assert_eq!(finish(transfer), (DownloadOutcome::Failed, DisplayState::Error));
    }
    let mut transfer = package();
    transfer.handle(Event::ProgressClosed);
    transfer.handle(ended(Ok(())));
    transfer.handle(Event::Inspected { size: Some(5), readable: true });
    transfer.handle(Event::Cleaned {
        removal: Removal::Failed,
        average: None,
        elapsed: Duration::zero(),
    });
    assert_eq!(finish(transfer), (DownloadOutcome::Failed, DisplayState::Error));
}

#[test]
fn an_average_that_is_not_known_leaves_the_speed() {
    let mut transfer = package();
    transfer.handle(Event::Progress {
        snapshot: snapshot(TransferState::Completed),
        elapsed: Duration::zero(),
    });
    transfer.handle(Event::Drawn { drawn: true });
    transfer.handle(ended(Ok(())));
    transfer.handle(Event::Inspected { size: Some(100), readable: true });
    transfer.handle(Event::Cleaned {
        removal: Removal::Removed,
        average: None,
        elapsed: Duration::zero(),
    });
    assert_eq!(transfer.model().bytes_per_second, Some(10));
}

#[test]
fn only_missing_database_signatures_are_skipped() {
    let url = "https://mirror/core.db.sig?x=/a#b/c";
    for status in [404, 410] {
        let error = TransferError::HttpStatus { status };
        assert_eq!(
            fail(driving(url, "/sync/core.db.sig.part"), error),
            (DownloadOutcome::SkippedDatabaseSignature, DisplayState::Skipped)
        );
        for (other_url, output) in [
            ("https://mirror/ordinary.db", "repo.db.sig.part"),
            ("https://mirror/repo.db.sig", "ordinary.db.part"),
            ("https://mirror/repo.db.sig", "repo.db.sig"),
            ("https://mirror/p.pkg.tar.zst.sig", "p.pkg.tar.zst.sig.part"),
        ] {
            assert_eq!(
                fail(driving(other_url, output), error),
                (DownloadOutcome::Failed, DisplayState::Error)
            );
        }
    }
    assert_eq!(
        fail(
            driving(url, "/sync/core.db.sig.part"),
            TransferError::HttpStatus { status: 500 }
        ),
        (DownloadOutcome::Failed, DisplayState::Error)
    );
}

#[test]
fn a_failed_transfer_brings_back_what_can_be_resumed() {
    let mut transfer = package();
    transfer.handle(Event::ProgressClosed);
    transfer.handle(ended(Err(TransferError::Other)));
    assert_eq!(transfer.action(), Action::StampOutput);
    transfer.handle(Event::Stamped { output: Some(STAMP) });
    assert_eq!(transfer.action(), Action::RestoreCheckpoint);
    assert_eq!(transfer.checkpoint(), &Some(vec![1, 2, 3]));
    transfer.handle(Event::Restored);
    assert_eq!(finish(transfer), (DownloadOutcome::Failed, DisplayState::Error));
}

#[test]
fn what_was_saved_last_is_brought_back() {
    let mut transfer = paused();
    for event in [
        Event::Polled { control: Some(ControlRequest::Continue) },
        Event::Polled { control: None },
        Event::Saved { resume: Some(vec![9]), output: None },
        Event::Started { running: true },
        Event::Drawn { drawn: true },
        control(ControlRequest::Suspend),
        ended(Err(TransferError::HttpStatus { status: 503 })),
    ] {
        transfer.handle(event);
    }
    assert_eq!(transfer.action(), Action::StampOutput);
    transfer.handle(Event::Stamped { output: None });
    assert_eq!(transfer.action(), Action::RestoreCheckpoint);
    assert_eq!(transfer.checkpoint(), &Some(vec![9]));
}

#[test]
fn an_interrupt_cancels_the_transfer() {
    let mut transfer = package();
    transfer.handle(control(ControlRequest::Interrupt));
    assert_eq!(transfer.action(), Action::CancelAndWait);
    transfer.handle(ended(Err(TransferError::Cancelled)));
    assert_eq!(
        finish(transfer),
        (DownloadOutcome::Interrupted, DisplayState::Interrupted)
    );
}

#[test]
fn a_control_at_the_end_does_not_change_the_outcome() {
    let mut transfer = package();
    transfer.handle(Event::Control {
        request: ControlRequest::Interrupt,
        snapshot: snapshot(TransferState::Completed),
        elapsed: Duration::from_secs(4),
    });
    assert_eq!(transfer.action(), Action::Wait);
    transfer.handle(ended(Ok(())));
    assert_eq!(transfer.action(), Action::InspectOutput);
}

fn paused() -> Transfer {
    let mut transfer = package();
    transfer.handle(control(ControlRequest::Suspend));
    assert_eq!(transfer.action(), Action::PauseAndWait);
    transfer.handle(ended(Err(TransferError::Paused)));
    assert_eq!(transfer.action(), Action::PollControl { yield_first: true });
    assert_eq!(transfer.model().state, DisplayState::Paused);
    transfer
}

#[test]
fn a_suspended_process_stops_after_its_row_and_starts_again() {
    let mut transfer = paused();
    for (event, action) in [
        (Event::Polled { control: None }, Action::Suspend),
        (Event::Drawn { drawn: true }, Action::PollControl { yield_first: true }),
        (Event::Polled { control: None }, Action::StopProcess),
        (Event::Continued { stopped: true }, Action::SaveCheckpoint),
        (saved(), Action::StartTransfer),
        (Event::Started { running: true }, Action::Draw { force: true }),
    ] {
        transfer.handle(event);
        assert_eq!(transfer.action(), action);
    }
    assert_eq!(transfer.model().state, DisplayState::Active);
}

#[test]
fn controls_that_come_while_paused_are_reconciled() {
    let mut transfer = paused();
    transfer.handle(Event::Polled { control: Some(ControlRequest::Continue) });
    assert_eq!(transfer.action(), Action::PollControl { yield_first: false });
    transfer.handle(Event::Polled { control: None });
    assert_eq!(transfer.action(), Action::SaveCheckpoint);
    transfer.handle(saved());
    assert_eq!(transfer.action(), Action::StartTransfer);

    let mut transfer = paused();
    transfer.handle(Event::Polled { control: Some(ControlRequest::Resize) });
    assert_eq!(transfer.action(), Action::Draw { force: true });
    transfer.handle(Event::Drawn { drawn: true });
    transfer.handle(Event::Polled { control: Some(ControlRequest::Interrupt) });
    transfer.handle(Event::Polled { control: Some(ControlRequest::Continue) });
    transfer.handle(Event::Polled { control: None });
    assert_eq!(
        finish(transfer),
        (DownloadOutcome::Interrupted, DisplayState::Interrupted)
    );

    let mut transfer = paused();
    transfer.handle(Event::Polled { control: Some(ControlRequest::Resize) });
    transfer.handle(Event::Drawn { drawn: false });
    assert_eq!(finish(transfer), (DownloadOutcome::Failed, DisplayState::Error));
}

#[test]
fn an_interrupt_outweighs_what_follows_it() {
    let all = |requests: &[ControlRequest]| {
        requests.iter().fold(PauseTransition::Stop, |transition, request| {
            reconcile(transition, *request)
        })
    };
    assert_eq!(all(&[]), PauseTransition::Stop);
    assert_eq!(
        all(&[ControlRequest::Suspend, ControlRequest::Continue, ControlRequest::Resize]),
        PauseTransition::Resume
    );
    assert_eq!(
        all(&[ControlRequest::Continue, ControlRequest::Suspend]),
        PauseTransition::Stop
    );
    assert_eq!(
        all(&[ControlRequest::Interrupt, ControlRequest::Continue]),
        PauseTransition::Interrupt
    );
}

#[test]
fn a_row_that_cannot_be_drawn_fails_the_download() {
    let mut transfer = package();
    transfer.handle(control(ControlRequest::Resize));
    assert_eq!(transfer.action(), Action::Draw { force: true });
    transfer.handle(Event::Drawn { drawn: false });
    assert_eq!(transfer.action(), Action::CancelAndWait);
    transfer.handle(ended(Err(TransferError::Other)));
    transfer.handle(Event::Stamped { output: None });
    transfer.handle(Event::Drawn { drawn: false });
    assert_eq!(transfer.action(), Action::Return { outcome: DownloadOutcome::Failed });

    let mut transfer = Transfer::new("u", "o");
    transfer.handle(Event::Locked { acquired: true });
    transfer.handle(saved());
    transfer.handle(Event::Started { running: true });
    transfer.handle(Event::Drawn { drawn: false });
    assert_eq!(transfer.action(), Action::CancelAndWait);
    transfer.handle(ended(Ok(())));
    assert_eq!(transfer.action(), Action::Return { outcome: DownloadOutcome::Failed });
}

#[test]
fn a_download_that_cannot_start_fails() {
    let mut transfer = Transfer::new("u", "o");
    transfer.handle(Event::Locked { acquired: false });
    assert_eq!(finish(transfer), (DownloadOutcome::Failed, DisplayState::Error));
    let mut transfer = Transfer::new("u", "o");
    transfer.handle(Event::Locked { acquired: true });
    transfer.handle(saved());
    transfer.handle(Event::Started { running: false });
    assert_eq!(finish(transfer), (DownloadOutcome::Failed, DisplayState::Error));
}

#[test]
fn closed_controls_are_not_awaited() {
    let mut transfer = package();
    transfer.handle(Event::ControlsClosed);
    assert_eq!(transfer.action(), Action::AwaitNews { controls: false });
    transfer.handle(control(ControlRequest::Interrupt));
    assert_eq!(transfer.action(), Action::AwaitNews { controls: false });
}

#[test]
fn only_a_pause_is_a_pause() {
    let mut transfer = package();
    transfer.handle(control(ControlRequest::Suspend));
    transfer.handle(ended(Ok(())));
    assert_eq!(transfer.action(), Action::InspectOutput);
    let mut transfer = paused();
    transfer.handle(Event::Polled { control: None });
    transfer.handle(Event::Drawn { drawn: false });
    assert_eq!(finish(transfer), (DownloadOutcome::Failed, DisplayState::Error));
}

#[test]
fn checkpoints_are_restored_only_beside_an_unchanged_output() {
    let touched = OutputStamp { modified_nanos: 6, ..STAMP };
    let replaced = OutputStamp { inode: 7, ..STAMP };
    for (resume, before, after, restored) in [
        (Some(vec![1, 2, 3]), Some(STAMP), Some(STAMP), true),
        (Some(vec![1, 2, 3]), Some(STAMP), Some(touched), false),
        (Some(vec![1, 2, 3]), Some(STAMP), Some(replaced), false),
        (Some(vec![1, 2, 3]), Some(STAMP), None, false),
        (Some(vec![1, 2, 3]), None, Some(STAMP), false),
        (None, Some(STAMP), Some(STAMP), false),
        (Some(vec![1, 2, 3]), None, None, true),
    ] {
        let mut transfer = driving_after("u", "o", Event::Saved { resume, output: before });
        transfer.handle(Event::ProgressClosed);
        transfer.handle(ended(Err(TransferError::Other)));
        transfer.handle(Event::Stamped { output: after });
        assert_eq!(transfer.action() == Action::RestoreCheckpoint, restored);
        if restored {
            assert_eq!(transfer.checkpoint(), &Some(vec![1, 2, 3]));
            transfer.handle(Event::Restored);
        }
        assert_eq!(finish(transfer), (DownloadOutcome::Failed, DisplayState::Error));
    }
}

#[test]
fn states_and_outcomes_are_told_apart() {
    assert!(!is_terminal(TransferState::Pending));
    assert!(!is_terminal(TransferState::Downloading));
    for state in [
        TransferState::Completed,
        TransferState::Failed,
        TransferState::Cancelled,
        TransferState::Paused,
    ] {
        assert!(is_terminal(state));
    }
    assert_eq!(exit_code(DownloadOutcome::Completed), 0);
    assert_eq!(exit_code(DownloadOutcome::SkippedDatabaseSignature), 1);
    assert_eq!(exit_code(DownloadOutcome::Failed), 1);
    assert_eq!(exit_code(DownloadOutcome::Interrupted), 1);
}

#[test]
fn signals_become_requests() {
    for (event, request) in [
        (SignalEvent::Interrupt, ControlRequest::Interrupt),
        (SignalEvent::Terminate, ControlRequest::Interrupt),
        (SignalEvent::Hangup, ControlRequest::Interrupt),
        (SignalEvent::Suspend, ControlRequest::Suspend),
        (SignalEvent::Continue, ControlRequest::Continue),
        (SignalEvent::Resize, ControlRequest::Resize),
    ] {
        assert_eq!(event.request(), request);
    }
}

#[test]
fn names_are_those_of_paths() {
    for path in [
        "a/b.part", "/a/b/", "b", "a/./b/.", "a/..", "/", "", ".", "..", "./", "a//b//", "a/b/..",
    ] {
        let expected = std::path::Path::new(path)
            .file_name()
            .map(|name| name.to_str().unwrap())
            .unwrap_or(path);
        assert_eq!(file_name(path), expected, "{path:?}");
    }
    assert_eq!(display_filename("/x/core.db.part"), "core.db");
    assert_eq!(display_filename("core.db"), "core.db");
    assert_eq!(display_filename(".part"), "");
    assert_eq!(sidecar_path("x.part"), "x.part.bytehaul");
    assert_eq!(lock_path("x.part"), "x.part.rustypac.lock");
}

#[test]
fn signatures_are_recognised_by_both_names() {
    assert!(is_database_signature("http://h/x.db.sig", "x.db.sig.part"));
    assert!(is_database_signature("x.db.sig?y.db#z", "d/x.db.sig.part/"));
    assert!(!is_database_signature("http://h/x.db.sig/", "x.db.sig.part"));
    assert!(!is_database_signature("http://h/x.db?f=x.db.sig", "x.db.sig.part"));
    assert!(!is_database_signature("http://h/x.db.sig", "x.db.part"));
}

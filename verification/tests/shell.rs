use ble_repl::controllers::btleplug::BtleplugController;
use ble_repl::controllers::{BleError, ScanResult};
use ble_repl::repl::cli::{CommandError, HelpTopic, ReplCommand};
use ble_repl::repl::{plan_command, process_line, LineOutcome, ReplAction};

fn found(entries: &[(Option<&str>, &str)]) -> Vec<ScanResult> {
    entries
        .iter()
        .map(|(n, a)| ScanResult { local_name: n.map(|s| s.to_string()), address_uuid: a.to_string() })
        .collect()
}

#[test]
fn blank_lines_are_skipped() {
    assert_eq!(process_line(""), LineOutcome::Blank);
    assert_eq!(process_line("   \t "), LineOutcome::Blank);
}

#[test]
fn broken_quotes_are_refused() {
    assert_eq!(process_line("connect 'my dev"), LineOutcome::InvalidQuotes);
}

#[test]
fn lines_are_split_like_a_shell() {
    assert_eq!(
        process_line("connect \"my dev\""),
        LineOutcome::Command(ReplCommand::ConnectByIdentifier("my dev".to_string()))
    );
    assert_eq!(
        process_line("  scan   3 --all "),
        LineOutcome::Command(ReplCommand::Scan { timeout: 3, all: true, list: false })
    );
    assert_eq!(process_line("# only a comment"), LineOutcome::Rejected(CommandError::HelpRequested(HelpTopic::Shell)));
    assert_eq!(
        process_line("scan 3 4"),
        LineOutcome::Rejected(CommandError::UnexpectedArgument("4".to_string()))
    );
}

#[test]
fn quit_and_scan_plans() {
    let bt = BtleplugController::new();
    assert_eq!(plan_command(&bt, &ReplCommand::Quit), ReplAction::Exit);
    assert_eq!(
        plan_command(&bt, &ReplCommand::Scan { timeout: 5, all: true, list: true }),
        ReplAction::PrintScanList { show_all: true }
    );
    assert_eq!(
        plan_command(&bt, &ReplCommand::Scan { timeout: 8, all: false, list: false }),
        ReplAction::RunScan { timeout: 8, show_all: false }
    );
    assert_eq!(
        plan_command(&bt, &ReplCommand::ConnectByIdentifier("x".to_string())),
        ReplAction::Fail(BleError::IdentifierNotFound("x".to_string()))
    );
}

#[test]
fn connect_by_identifier_after_a_scan() {
    let mut bt = BtleplugController::new();
    bt.record_scan(found(&[(Some("lamp"), "00:11"), (None, "00:22"), (Some("1"), "00:33")]));
    assert_eq!(
        plan_command(&bt, &ReplCommand::ConnectByIdentifier("lamp".to_string())),
        ReplAction::Connect { id: 0, address_uuid: "00:11".to_string() }
    );
    assert_eq!(
        plan_command(&bt, &ReplCommand::ConnectByIdentifier("00:22".to_string())),
        ReplAction::Connect { id: 1, address_uuid: "00:22".to_string() }
    );
    assert_eq!(
        plan_command(&bt, &ReplCommand::ConnectByIdentifier("1".to_string())),
        ReplAction::Connect { id: 1, address_uuid: "00:22".to_string() }
    );
    assert_eq!(
        plan_command(&bt, &ReplCommand::ConnectByIdentifier("+2".to_string())),
        ReplAction::Connect { id: 2, address_uuid: "00:33".to_string() }
    );
    assert_eq!(
        plan_command(&bt, &ReplCommand::ConnectByIdentifier("fan".to_string())),
        ReplAction::Fail(BleError::IdentifierNotFound("fan".to_string()))
    );
    assert_eq!(
        process_line("connect lamp"),
        LineOutcome::Command(ReplCommand::ConnectByIdentifier("lamp".to_string()))
    );
}

#[test]
fn connect_by_id_after_a_scan() {
    let mut bt = BtleplugController::new();
    bt.record_scan(found(&[(Some("lamp"), "00:11"), (None, "00:22")]));
    assert_eq!(
        plan_command(&bt, &ReplCommand::ConnectById(1)),
        ReplAction::Connect { id: 1, address_uuid: "00:22".to_string() }
    );
    assert_eq!(
        plan_command(&bt, &ReplCommand::ConnectById(2)),
        ReplAction::Fail(BleError::IdNotFound)
    );
}

#[test]
fn disconnect_needs_a_connection() {
    let mut bt = BtleplugController::new();
    assert_eq!(
        plan_command(&bt, &ReplCommand::Disconnect),
        ReplAction::Fail(BleError::NotConnected)
    );
    bt.mark_connected("00:11".to_string());
    assert_eq!(plan_command(&bt, &ReplCommand::Disconnect), ReplAction::Disconnect);
    let _ = bt.begin_disconnect();
    bt.finish_disconnect();
    assert_eq!(
        plan_command(&bt, &ReplCommand::Disconnect),
        ReplAction::Fail(BleError::NotConnected)
    );
}

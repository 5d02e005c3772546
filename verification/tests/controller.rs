use ble_repl::controllers::btleplug::{choose_adapter, find_peripheral, AdapterChoice, BtleplugController};
use ble_repl::controllers::{BleController, BleError, BlePeripheral, ScanResult};
use ble_repl::btl_support::{
    after_connect_attempt, daemon_adapter, plan_device, subscribes_to, DeviceAction, DeviceStep,
    NOTIFICATIONS_PER_CHARACTERISTIC,
};
use ble_repl::repl::commands::connect::{by_identifier, by_index};
use ble_repl::repl::commands::scan::visible_peripherals;

fn found(entries: &[(Option<&str>, &str)]) -> Vec<ScanResult> {
    entries
        .iter()
        .map(|(n, a)| ScanResult { local_name: n.map(|s| s.to_string()), address_uuid: a.to_string() })
        .collect()
}

fn summary(list: &[BlePeripheral]) -> Vec<(usize, String, String)> {
    list.iter().map(|p| (p.id, p.name.clone(), p.address_uuid.clone())).collect()
}

#[test]
fn a_new_controller_is_empty_and_idle() {
    let bt = BtleplugController::new();
    assert!(bt.get_scan_list().is_empty());
    assert!(!bt.is_connected());
    assert!(!bt.notifications_running());
}

#[test]
fn a_scan_numbers_peripherals_and_names_the_unnamed() {
    let mut bt = BtleplugController::new();
    bt.record_scan(found(&[(Some("lamp"), "00:11"), (None, "00:22"), (Some("fan"), "00:33")]));
    assert_eq!(
        summary(&bt.get_scan_list()),
        vec![
            (0, "lamp".to_string(), "00:11".to_string()),
            (1, "unknown".to_string(), "00:22".to_string()),
            (2, "fan".to_string(), "00:33".to_string()),
        ]
    );
    bt.record_scan(found(&[(None, "00:44")]));
    assert_eq!(summary(&bt.get_scan_list()), vec![(0, "unknown".to_string(), "00:44".to_string())]);
}

#[test]
fn a_scan_keeps_the_connection() {
    let mut bt = BtleplugController::new();
    bt.mark_connected("00:11".to_string());
    bt.record_scan(found(&[(Some("lamp"), "00:11")]));
    assert!(bt.is_connected());
    assert!(bt.notifications_running());
}

#[test]
fn connect_then_disconnect() {
    let mut bt = BtleplugController::new();
    bt.mark_connected("00:11".to_string());
    assert!(bt.is_connected());
    assert!(bt.notifications_running());
    assert_eq!(bt.begin_disconnect(), Ok("00:11".to_string()));
    assert!(!bt.notifications_running());
    assert!(bt.is_connected());
    bt.finish_disconnect();
    assert!(!bt.is_connected());
    assert!(!bt.notifications_running());
}

#[test]
fn finishing_a_disconnection_stops_notifications() {
    let mut bt = BtleplugController::new();
    bt.mark_connected("00:11".to_string());
    bt.finish_disconnect();
    assert!(!bt.is_connected());
    assert!(!bt.notifications_running());
}

#[test]
fn by_identifier_takes_the_first_match() {
    let list = vec![
        BlePeripheral { id: 0, name: "a".to_string(), address_uuid: "A".to_string() },
        BlePeripheral { id: 1, name: "0".to_string(), address_uuid: "B".to_string() },
        BlePeripheral { id: 2, name: "c".to_string(), address_uuid: "a".to_string() },
    ];
    assert_eq!(by_identifier(&list, "a"), Ok((0, "A".to_string())));
    assert_eq!(by_identifier(&list, "0"), Ok((0, "A".to_string())));
    assert_eq!(by_identifier(&list, "B"), Ok((1, "B".to_string())));
    assert_eq!(by_identifier(&list, "2"), Ok((2, "a".to_string())));
    assert_eq!(by_identifier(&list, "3"), Err(BleError::IdentifierNotFound("3".to_string())));
}

#[test]
fn daemon_decisions() {
    assert_eq!(plan_device(None), DeviceAction::NoProperties);
    assert_eq!(plan_device(Some(None)), DeviceAction::KeepLooking);
    assert_eq!(plan_device(Some(Some("pad".to_string()))), DeviceAction::Explore("pad".to_string()));
    assert!(subscribes_to(0x10));
    assert!(subscribes_to(0x12));
    assert!(!subscribes_to(0x2f));
    assert_eq!(NOTIFICATIONS_PER_CHARACTERISTIC, 4);
    assert_eq!(daemon_adapter(0), None);
    assert_eq!(daemon_adapter(1), Some(0));
    assert_eq!(daemon_adapter(3), Some(2));
    assert_eq!(after_connect_attempt(true), DeviceStep::DiscoverServices);
    assert_eq!(after_connect_attempt(false), DeviceStep::SkipDevice);
}

#[test]
fn disconnect_without_connection_is_refused() {
    let mut bt = BtleplugController::new();
    assert_eq!(bt.begin_disconnect(), Err(BleError::NotConnectedToDisconnect));
    assert!(!bt.is_connected());
    assert!(!bt.notifications_running());
}

#[test]
fn the_first_matching_peripheral_is_picked() {
    let around = vec!["00:11".to_string(), "00:22".to_string(), "00:22".to_string()];
    assert_eq!(find_peripheral(&around, "00:22"), Ok(1));
    assert_eq!(find_peripheral(&around, "00:11"), Ok(0));
    assert_eq!(
        find_peripheral(&around, "00:99"),
        Err(BleError::PeripheralNotFound("00:99".to_string()))
    );
    assert_eq!(find_peripheral(&Vec::new(), "00:11"), Err(BleError::PeripheralNotFound("00:11".to_string())));
}

#[test]
fn by_index_finds_the_first_peripheral_with_the_id() {
    let list = vec![
        BlePeripheral { id: 4, name: "a".to_string(), address_uuid: "A".to_string() },
        BlePeripheral { id: 7, name: "b".to_string(), address_uuid: "B".to_string() },
        BlePeripheral { id: 7, name: "c".to_string(), address_uuid: "C".to_string() },
    ];
    assert_eq!(by_index(&list, 7), Ok("B".to_string()));
    assert_eq!(by_index(&list, 4), Ok("A".to_string()));
    assert_eq!(by_index(&list, 5), Err(BleError::IdNotFound));
}

#[test]
fn by_index_after_a_scan_is_by_position() {
    let mut bt = BtleplugController::new();
    bt.record_scan(found(&[(Some("lamp"), "00:11"), (None, "00:22")]));
    let list = bt.get_scan_list();
    assert_eq!(by_index(&list, 0), Ok("00:11".to_string()));
    assert_eq!(by_index(&list, 1), Ok("00:22".to_string()));
    assert_eq!(by_index(&list, 2), Err(BleError::IdNotFound));
}

#[test]
fn unnamed_peripherals_are_shown_only_with_all() {
    let mut bt = BtleplugController::new();
    bt.record_scan(found(&[(Some("lamp"), "00:11"), (None, "00:22"), (Some("fan"), "00:33")]));
    let list = bt.get_scan_list();
    assert_eq!(
        summary(&visible_peripherals(&list, false)),
        vec![(0, "lamp".to_string(), "00:11".to_string()), (2, "fan".to_string(), "00:33".to_string())]
    );
    assert_eq!(summary(&visible_peripherals(&list, true)).len(), 3);
}

#[test]
fn adapter_choice() {
    assert_eq!(choose_adapter(0), AdapterChoice::NoAdapter);
    assert_eq!(choose_adapter(1), AdapterChoice::Use(0));
    assert_eq!(choose_adapter(3), AdapterChoice::AskUser);
}

#[test]
fn error_messages() {
    assert_eq!(BleError::IdNotFound.message(), "Id not found");
    assert_eq!(
        BleError::NotConnected.message(),
        "Error: You must be connected to a peripheral to run this command"
    );
    assert_eq!(BleError::NotConnectedToDisconnect.message(), "Error: You must be connected to disconnect");
    assert_eq!(
        BleError::PeripheralNotFound("00:99".to_string()).message(),
        "Peripheral with uuid 00:99 not found"
    );
    assert_eq!(
        BleError::IdentifierNotFound("pad".to_string()).message(),
        "No peripheral named pad in the scan list"
    );
}

use swelfi::{
    connected_ssid, parse_iw, parse_nw, AppState, Frequency, InterfaceSwitch, Quality,
    RefreshJob, RefreshPhase, RefreshRequest, SecurityType, WirelessInterface, WirelessNetwork,
    WorkerAction, WorkerEvent, SETTLE_DELAY_MS,
};

fn cell_text(number: &str, address: &str, frequency: &str, quality: &str, essid: &str, ie: &str) -> String {
    format!(
        "Cell {} - Address: {}\n    Channel:6\n    Frequency:{} GHz (Channel 6)\n    Quality={}  Signal level=-68 dBm\n    ESSID:\"{}\"\n    IE: {}\n",
        number, address, frequency, quality, essid, ie
    )
}

fn network(essid: &str, address: &str) -> WirelessNetwork {
    WirelessNetwork {
        address: String::from(address),
        quality: Quality { value: 1, limit: 70 },
        frequency: Frequency { digits: 2412, decimals: 3 },
        essid: String::from(essid),
        security_type: SecurityType::Wpa2,
    }
}

fn state() -> AppState {
    AppState::new(
        vec![WirelessInterface { name: String::from("wlan0"), connected_ssid: None }],
        None,
    )
}

#[test]
fn interface_without_ssid_has_no_connection() {
    let input = "phy#0\n\tInterface wlan0\n\t\tifindex 3\n\t\ttype managed\n";
    assert_eq!(
        parse_iw(input),
        vec![WirelessInterface { name: String::from("wlan0"), connected_ssid: None }]
    );
}

#[test]
fn ssid_of_next_interface_is_not_taken() {
    let input = "\tInterface first\n\t\ttype managed\n\tInterface second\n\t\tssid home\n";
    assert_eq!(
        parse_iw(input),
        vec![
            WirelessInterface { name: String::from("first"), connected_ssid: None },
            WirelessInterface { name: String::from("second"), connected_ssid: Some(String::from("home")) },
        ]
    );
}

#[test]
fn single_block_gives_one_record() {
    let input = "junk\nInterface foo\n  ifindex 1\n  ssid bar\n  type managed\n";
    assert_eq!(
        parse_iw(input),
        vec![WirelessInterface { name: String::from("foo"), connected_ssid: Some(String::from("bar")) }]
    );
}

#[test]
fn empty_listing_gives_nothing() {
    assert_eq!(parse_iw(""), Vec::<WirelessInterface>::new());
    assert_eq!(parse_nw(""), Vec::<WirelessNetwork>::new());
}

#[test]
fn last_line_without_line_feed() {
    assert_eq!(
        parse_iw("Interface tail"),
        vec![WirelessInterface { name: String::from("tail"), connected_ssid: None }]
    );
}

#[test]
fn classification_order() {
    assert_eq!(SecurityType::from("i/WPA2 Version 1"), SecurityType::Wpa2);
    assert_eq!(SecurityType::from("WPA3 over WPA"), SecurityType::Wpa3);
    assert_eq!(SecurityType::from("WPA2 and WPA3"), SecurityType::Wpa2);
    assert_eq!(SecurityType::from("WPA Version 1"), SecurityType::Wpa);
    assert_eq!(SecurityType::from("Unknown: 00086D"), SecurityType::Invalid);
    assert_eq!(SecurityType::from(""), SecurityType::Invalid);
}

#[test]
fn security_line_in_a_cell() {
    let input = cell_text("01", "AA:BB:CC:DD:EE:FF", "5.18", "30/70", "x", "IEEE 802.11i/WPA3 Version 1");
    assert_eq!(parse_nw(&input)[0].security_type, SecurityType::Wpa3);
    let input = cell_text("01", "AA:BB:CC:DD:EE:FF", "5.18", "30/70", "x", "IEEE 802.11 open");
    assert_eq!(parse_nw(&input)[0].security_type, SecurityType::Invalid);
}

#[test]
fn quality_is_taken_as_written() {
    let input = cell_text("01", "AA:BB:CC:DD:EE:FF", "2.437", "42/70", "n", "IEEE 802.11i/WPA2 Version 1");
    assert_eq!(parse_nw(&input)[0].quality, Quality { value: 42, limit: 70 });
}

#[test]
fn quality_that_overflows_drops_the_cell() {
    let input = cell_text("01", "AA:BB:CC:DD:EE:FF", "2.437", "18446744073709551616/70", "n", "IEEE 802.11i/WPA2 Version 1");
    assert_eq!(parse_nw(&input), Vec::<WirelessNetwork>::new());
    let input = cell_text("01", "AA:BB:CC:DD:EE:FF", "2.437", "18446744073709551615/70", "n", "IEEE 802.11i/WPA2 Version 1");
    assert_eq!(parse_nw(&input)[0].quality.value, u64::MAX);
}

#[test]
fn frequency_forms() {
    let input = cell_text("01", "AA:BB:CC:DD:EE:FF", "5", "1/2", "n", "IEEE 802.11i/WPA2");
    assert_eq!(parse_nw(&input)[0].frequency, Frequency { digits: 5, decimals: 0 });
    let input = cell_text("01", "AA:BB:CC:DD:EE:FF", "5.180", "1/2", "n", "IEEE 802.11i/WPA2");
    let f = parse_nw(&input)[0].frequency;
    assert_eq!(f, Frequency { digits: 5180, decimals: 3 });
    assert_eq!(f.digits as f64 / 10f64.powi(f.decimals as i32), 5.18);
    let input = cell_text("01", "AA:BB:CC:DD:EE:FF", "GHz", "1/2", "n", "IEEE 802.11i/WPA2");
    assert_eq!(parse_nw(&input), Vec::<WirelessNetwork>::new());
}

#[test]
fn broken_cell_is_dropped_and_scan_goes_on() {
    let mut input = String::from("wlan0     Scan completed :\n");
    input.push_str("Cell 01 - Address: 11:11:11:11:11:11\n    Frequency:2.4 GHz\n    Quality=1/70\n    IE: IEEE 802.11i/WPA2\n");
    input.push_str(&cell_text("02", "22:22:22:22:22:22", "2.462", "55/70", "second", "IEEE 802.11i/WPA2 Version 1"));
    let networks = parse_nw(&input);
    assert_eq!(networks.len(), 1);
    assert_eq!(networks[0].essid, "second");
    assert_eq!(networks[0].address, "22:22:22:22:22:22");
    assert_eq!(networks[0].quality, Quality { value: 55, limit: 70 });
}

#[test]
fn cells_keep_their_order() {
    let mut input = cell_text("01", "11:11:11:11:11:11", "2.412", "10/70", "one", "IEEE 802.11i/WPA2");
    input.push_str(&cell_text("02", "22:22:22:22:22:22", "2.437", "20/70", "", "IEEE 802.11i/WPA Version 1"));
    let networks = parse_nw(&input);
    assert_eq!(networks.len(), 2);
    assert_eq!(networks[0].essid, "one");
    assert_eq!(networks[1].essid, "");
    assert_eq!(networks[1].security_type, SecurityType::Wpa);
}

#[test]
fn parsing_twice_gives_the_same() {
    let input = "Interface a\n ssid x\nInterface b\n";
    assert_eq!(parse_iw(input), parse_iw(input));
    let cells = cell_text("07", "AB:CD:EF:01:23:45", "2.437", "42/70", "net", "IEEE 802.11i/WPA2 Version 1");
    assert_eq!(parse_nw(&cells), parse_nw(&cells));
}

#[test]
fn network_id() {
    assert_eq!(network("some network", "D4:1A:D1:51:67:F2").id(), "some network - (D4:1A:D1:51:67:F2)");
}

#[test]
fn connected_network_is_marked() {
    let mut s = state();
    s.connected_wlan_network = Some(String::from("home"));
    assert_eq!(s.network_label(&network("home", "01:02:03:04:05:06")), "home - (01:02:03:04:05:06) - connected");
    assert_eq!(s.network_label(&network("cafe", "01:02:03:04:05:07")), "cafe - (01:02:03:04:05:07)");
}

#[test]
fn connected_ssid_from_info() {
    let info = "Interface wlp64s0\n\tifindex 3\n\tssid whatever\n\ttype managed\n";
    assert_eq!(connected_ssid(info), Some(Some(String::from("whatever"))));
    assert_eq!(connected_ssid("Interface wlp64s0\n\ttype managed\n"), Some(None));
    assert_eq!(connected_ssid("command failed"), None);
}

#[test]
fn new_state_selects_first_interface() {
    let s = AppState::new(
        vec![
            WirelessInterface { name: String::from("wlan0"), connected_ssid: None },
            WirelessInterface { name: String::from("wlan1"), connected_ssid: None },
        ],
        Some(String::from("home")),
    );
    assert_eq!(s.selected_wlan_interface, "wlan0");
    assert!(s.wlan_networks.is_none());
    assert!(s.wlan_on);
    assert_eq!(s.refresh_request(), RefreshRequest { interface: String::from("wlan0"), delay_ms: None });
}

#[test]
fn toggle_off_clears_networks_without_refresh() {
    let mut s = state();
    s.wlan_networks = Some(vec![network("a", "01:01:01:01:01:01")]);
    let switch = s.toggle();
    assert_eq!(switch, InterfaceSwitch { interface: String::from("wlan0"), up: false });
    assert_eq!(switch.link_state(), "down");
    assert!(!s.wlan_on);
    assert_eq!(s.wlan_networks, Some(Vec::new()));
    assert_eq!(s.switch_done(), None);
}

#[test]
fn toggle_on_asks_for_one_delayed_refresh() {
    let mut s = state();
    s.toggle();
    let switch = s.toggle();
    assert!(switch.up);
    assert_eq!(switch.link_state(), "up");
    assert_eq!(s.wlan_networks, Some(Vec::new()));
    let request = s.switch_done().unwrap();
    assert_eq!(request, RefreshRequest { interface: String::from("wlan0"), delay_ms: Some(SETTLE_DELAY_MS) });
    assert!(SETTLE_DELAY_MS > 0);
}

#[test]
fn update_selects_first_network() {
    let mut s = state();
    s.apply_update(None, Some(Some(String::from("home"))));
    assert!(s.wlan_networks.is_none());
    assert_eq!(s.connected_wlan_network, Some(String::from("home")));
    s.apply_update(Some(vec![network("b", "02:02:02:02:02:02"), network("c", "03:03:03:03:03:03")]), None);
    assert_eq!(s.selected_wlan_network, "b - (02:02:02:02:02:02)");
    assert_eq!(s.wlan_networks.as_ref().map(|v| v.len()), Some(2));
    assert_eq!(s.connected_wlan_network, Some(String::from("home")));
    s.apply_update(Some(Vec::new()), Some(None));
    assert_eq!(s.selected_wlan_network, "b - (02:02:02:02:02:02)");
    assert_eq!(s.wlan_networks, Some(Vec::new()));
    assert_eq!(s.connected_wlan_network, None);
}

#[test]
fn refresh_job_with_delay() {
    let mut job = RefreshJob::new(RefreshRequest { interface: String::from("wlan0"), delay_ms: Some(1000) });
    assert!(matches!(job.step(WorkerEvent::Proceed), WorkerAction::ShowPending));
    assert_eq!(job.phase, RefreshPhase::Settling(1000));
    assert!(matches!(job.step(WorkerEvent::Proceed), WorkerAction::Sleep(1000)));
    match job.step(WorkerEvent::Proceed) {
        WorkerAction::Scan(i) => assert_eq!(i, "wlan0"),
        other => panic!("unexpected {:?}", other),
    }
    match job.step(WorkerEvent::Scanned(Some(vec![network("a", "01:01:01:01:01:01")]))) {
        WorkerAction::Publish(v) => assert_eq!(v.len(), 1),
        other => panic!("unexpected {:?}", other),
    }
    assert_eq!(job.phase, RefreshPhase::Completed);
    assert!(matches!(job.step(WorkerEvent::Proceed), WorkerAction::Idle));
}

#[test]
fn refresh_job_without_delay_that_fails() {
    let mut job = RefreshJob::new(RefreshRequest { interface: String::from("wlan1"), delay_ms: None });
    assert!(matches!(job.step(WorkerEvent::Proceed), WorkerAction::ShowPending));
    assert_eq!(job.phase, RefreshPhase::Ready);
    assert!(matches!(job.step(WorkerEvent::Scanned(None)), WorkerAction::Idle));
    assert!(matches!(job.step(WorkerEvent::Proceed), WorkerAction::Scan(_)));
    assert!(matches!(job.step(WorkerEvent::Scanned(None)), WorkerAction::ReportFailure));
    assert_eq!(job.phase, RefreshPhase::Failed);
}

#[test]
fn security_line_ends_before_carriage_return() {
    let input = "Cell 01 - Address: AA:BB:CC:DD:EE:FF\r\n    Frequency:2.4 GHz\r\n    Quality=3/70\r\n    ESSID:\"x\"\r\n    IE: IEEE 802.11i/WPA2 Version 1\r\n    Group Cipher : CCMP\r\n";
    let networks = parse_nw(input);
    assert_eq!(networks.len(), 1);
    assert_eq!(networks[0].security_type, SecurityType::Wpa2);
    assert_eq!(networks[0].essid, "x");
}

#[test]
fn lone_carriage_return_stays_in_the_security_line() {
    let input = "Cell 01 - Address: AA:BB:CC:DD:EE:FF\n Frequency:2.4 GHz\n Quality=3/70\n ESSID:\"x\"\n IE: IEEE 802.11i\r/WPA3 Version 1\n";
    let networks = parse_nw(input);
    assert_eq!(networks.len(), 1);
    assert_eq!(networks[0].security_type, SecurityType::Wpa3);
}

#[test]
fn state_without_interfaces_selects_nothing() {
    let s = AppState::new(Vec::new(), None);
    assert_eq!(s.selected_wlan_interface, "");
    assert!(s.wlan_interfaces.is_empty());
    assert!(s.wlan_networks.is_none());
    assert!(s.wlan_on);
}

#[test]
fn two_blocks_without_ssid_lines() {
    let input = "phy#0\nInterface a\n\ttype managed\nInterface b\n\ttype managed\n";
    assert_eq!(
        parse_iw(input),
        vec![
            WirelessInterface { name: String::from("a"), connected_ssid: None },
            WirelessInterface { name: String::from("b"), connected_ssid: None },
        ]
    );
}

#[test]
fn toggle_on_asks_for_refresh_whatever_the_link_change_did() {
    let mut s = state();
    s.toggle();
    assert_eq!(s.switch_done(), None);
    s.toggle();
    assert!(s.wlan_on);
    assert_eq!(
        s.switch_done(),
        Some(RefreshRequest { interface: String::from("wlan0"), delay_ms: Some(SETTLE_DELAY_MS) })
    );
}

#[test]
fn long_fraction_keeps_what_fits() {
    let input = cell_text("01", "AA:BB:CC:DD:EE:FF", "2.43700000000000000000", "1/2", "n", "IEEE 802.11i/WPA2");
    let networks = parse_nw(&input);
    assert_eq!(networks.len(), 1);
    let f = networks[0].frequency;
    assert_eq!(f, Frequency { digits: 2437000000000000000, decimals: 18 });
    assert_eq!(f.digits as f64 / 10f64.powi(f.decimals as i32), 2.437);
    let input = cell_text("01", "AA:BB:CC:DD:EE:FF", "99999999999999999999.5", "1/2", "n", "IEEE 802.11i/WPA2");
    assert_eq!(parse_nw(&input), Vec::<WirelessNetwork>::new());
}

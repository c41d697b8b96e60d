use razer::devices::capabilities::Capabilities;
use razer::devices::table::{all, lookup, DeviceKind, PollRateKind, VENDOR_ID};
use razer::time::Duration;

#[test]
fn table_has_exactly_three_entries() {
    assert_eq!(all().len(), 3);
}

#[test]
fn table_sorted_ascending_by_pid() {
    for w in all().windows(2) {
        assert!(
            w[0].pid < w[1].pid,
            "table not sorted: {:#x} >= {:#x}",
            w[0].pid,
            w[1].pid
        );
    }
}

#[test]
fn pids_are_exactly_the_expected_set() {
    let mut pids: Vec<u16> = all().iter().map(|e| e.pid).collect();
    pids.sort_unstable();
    assert_eq!(pids, vec![0x00AA, 0x00AB, 0x028D]);
}

#[test]
fn vendor_id_is_razer() {
    assert_eq!(VENDOR_ID, 0x1532);
}

#[test]
fn blackwidow_v4_pro_fields() {
    let e = lookup(0x028D).expect("BlackWidow V4 Pro must be in the table");
    assert!(e.name.contains("BlackWidow V4 Pro"));
    assert_eq!(e.kind, DeviceKind::Keyboard);
    assert_eq!(e.transaction_id, 0x1F);
    assert_eq!(e.report_index, 3);
    assert_eq!(e.response_index, 3);
    assert_eq!(e.wait, Duration::from_micros(600));
    assert_eq!(e.default_led, 0x05);
    assert_eq!(e.poll_rate_kind, PollRateKind::V2);
}

#[test]
fn basilisk_v3_pro_wired_fields() {
    let e = lookup(0x00AA).expect("Basilisk V3 Pro Wired must be in the table");
    assert!(e.name.contains("Basilisk V3 Pro"));
    assert!(e.name.contains("Wired"));
    assert_eq!(e.kind, DeviceKind::Mouse);
    assert_eq!(e.transaction_id, 0x1F);
    assert_eq!(e.report_index, 0);
    assert_eq!(e.response_index, 0);
    assert_eq!(e.wait, Duration::from_micros(31_000));
    assert_eq!(e.default_led, 0x00);
    assert_eq!(e.poll_rate_kind, PollRateKind::Legacy);
}

#[test]
fn basilisk_v3_pro_wireless_fields() {
    let e = lookup(0x00AB).expect("Basilisk V3 Pro Wireless must be in the table");
    assert!(e.name.contains("Basilisk V3 Pro"));
    assert!(e.name.contains("Wireless"));
    assert_eq!(e.kind, DeviceKind::Mouse);
    assert_eq!(e.transaction_id, 0x1F);
    assert_eq!(e.report_index, 0);
    assert_eq!(e.response_index, 0);
    assert_eq!(e.wait, Duration::from_micros(31_000));
    assert_eq!(e.default_led, 0x00);
    assert_eq!(e.poll_rate_kind, PollRateKind::Legacy);
}

#[test]
fn all_entries_have_common_capabilities() {
    for e in all() {
        assert!(
            e.capabilities.contains(Capabilities(0x3F)),
            "{} missing common capabilities",
            e.name
        );
    }
}

#[test]
fn kiyo_pro_is_absent() {
    assert!(lookup(0x0E05).is_none());
}

#[test]
fn unknown_pids_return_none() {
    assert!(lookup(0x0000).is_none());
    assert!(lookup(0xFFFF).is_none());
    assert!(lookup(0x028C).is_none());
    assert!(lookup(0x028E).is_none());
}

#[test]
fn table_no_entry_uses_the_buggy_0xff_transaction_id() {
    for e in all() {
        assert_ne!(
            e.transaction_id, 0xFF,
            "{} must not use the buggy 0xFF transaction id",
            e.name
        );
    }
}

#[test]
fn report_index_always_equals_response_index() {
    for e in all() {
        assert_eq!(
            e.report_index, e.response_index,
            "{} report/response index mismatch",
            e.name
        );
    }
}

use razer::hid::{
    Clock, FeatureTransport, HidError, MockClock, MockSysfs, MockTransport, SysfsSource,
    UsbInterfaceInfo, HIDRAW_BUF_LEN,
};
use razer::proto::RazerReport;
use razer::time::Duration;

const RAZER: u16 = 0x1532;
const PROTO_CONTROL: u8 = 0x02;
const PROTO_NONE: u8 = 0x00;

fn usb(pid: u16, interface_number: u8, interface_protocol: u8) -> UsbInterfaceInfo {
    UsbInterfaceInfo {
        vendor_id: RAZER,
        product_id: pid,
        interface_number,
        interface_protocol,
    }
}

#[test]
fn blackwidow_fixture_matches_the_documented_layout() {
    let sysfs = MockSysfs::blackwidow_v4_pro();
    assert_eq!(
        sysfs.hidraw_names().expect("names"),
        ["hidraw0", "hidraw1", "hidraw2", "hidraw3"]
    );
    let control = sysfs
        .interface_info("hidraw3")
        .expect("lookup")
        .expect("hidraw3 has a usb parent");
    assert_eq!(control.vendor_id, RAZER);
    assert_eq!(control.product_id, 0x028D);
    assert_eq!(control.interface_number, 3);
    assert_eq!(control.interface_protocol, PROTO_CONTROL);
}

#[test]
fn basilisk_fixture_matches_the_documented_layout() {
    let sysfs = MockSysfs::basilisk_v3_pro_wireless();
    assert_eq!(
        sysfs.hidraw_names().expect("names"),
        ["hidraw4", "hidraw5", "hidraw6"]
    );
    let control = sysfs
        .interface_info("hidraw4")
        .expect("lookup")
        .expect("hidraw4 has a usb parent");
    assert_eq!(control.product_id, 0x00AB);
    assert_eq!(control.interface_number, 0);
    assert_eq!(control.interface_protocol, PROTO_CONTROL);
}

#[test]
fn unknown_node_has_no_interface_info() {
    let sysfs = MockSysfs::blackwidow_v4_pro();
    assert_eq!(sysfs.interface_info("hidraw99").expect("lookup"), None);
}

#[test]
fn mock_sysfs_preserves_insertion_order() {
    let sysfs = MockSysfs::new()
        .with_node("hidraw9", usb(0x028D, 3, PROTO_CONTROL))
        .with_node("hidraw2", usb(0x028D, 0, PROTO_NONE));
    assert_eq!(sysfs.hidraw_names().expect("names"), ["hidraw9", "hidraw2"]);
}

#[test]
fn transport_records_sets_and_replays_gets() {
    let mut t = MockTransport::new();
    assert!(t.sent().is_empty());

    let mut out = [0u8; HIDRAW_BUF_LEN];
    out[1] = 0xAB;
    t.set_feature(&out).expect("set");
    assert_eq!(t.sent().len(), 1);
    assert_eq!(t.sent()[0][1], 0xAB);

    let response = RazerReport::new(0x00, 0x84, 0x02);
    t.push_response(&response);
    let mut buf = [0u8; HIDRAW_BUF_LEN];
    assert_eq!(t.get_feature(&mut buf).expect("get"), HIDRAW_BUF_LEN);
    assert_eq!(buf[0], 0x00, "report id prefix");
    assert_eq!(buf[8], 0x84, "command id lands at report byte 7");
}

#[test]
fn transport_with_an_empty_queue_reports_zero_bytes() {
    let mut t = MockTransport::new();
    let mut buf = [0u8; HIDRAW_BUF_LEN];
    assert_eq!(t.get_feature(&mut buf).expect("get"), 0);
}

#[test]
fn fail_next_set_fires_once_only() {
    let mut t = MockTransport::new();
    t.fail_next_set(libc::EACCES);
    let buf = [0u8; HIDRAW_BUF_LEN];
    assert!(matches!(
        t.set_feature(&buf),
        Err(HidError::Io {
            op: "HIDIOCSFEATURE",
            errno: 13
        })
    ));
    assert!(t.sent().is_empty(), "a failed set must not be recorded");
    t.set_feature(&buf).expect("the second set succeeds");
    assert_eq!(t.sent().len(), 1);
}

#[test]
fn sent_reports_round_trips_what_was_sent() {
    let mut t = MockTransport::new();
    let report = RazerReport::new(0x0F, 0x04, 0x03)
        .with_args(&[0x01, 0x05, 0x40])
        .with_transaction_id(0x1F);
    let mut buf = [0u8; HIDRAW_BUF_LEN];
    buf[1..].copy_from_slice(&report.to_bytes());
    t.set_feature(&buf).expect("set");

    let decoded = t.sent_reports();
    assert_eq!(decoded.len(), 1);
    assert_eq!(decoded[0].command_class, 0x0F);
    assert_eq!(decoded[0].command_id, 0x04);
    assert_eq!(decoded[0].transaction_id, 0x1F);
    assert_eq!(decoded[0].args(), &[0x01, 0x05, 0x40]);
}

#[test]
fn clock_records_instead_of_sleeping() {
    let mut c = MockClock::new();
    assert_eq!(c.total(), Duration::from_micros(0));
    c.sleep(Duration::from_micros(600));
    c.sleep(Duration::from_millis(10));
    assert_eq!(
        c.sleeps(),
        [Duration::from_micros(600), Duration::from_millis(10)]
    );
    assert_eq!(c.total(), Duration::from_micros(10_600));
}

use razer::devices::{all, lookup, Capabilities, DeviceKind, PollRateKind, VENDOR_ID};
use razer::time::Duration;

const WANT_VENDOR_ID: u16 = 0x1532;

const WANT_BASILISK_WIRED: u16 = 0x00AA;
const WANT_BASILISK_WIRELESS: u16 = 0x00AB;
const WANT_BLACKWIDOW: u16 = 0x028D;

const WANT_MOUSE_WAIT_US: u64 = 31_000;
const WANT_KBD_WAIT_US: u64 = 600;

const WANT_KBD_INDEX: u8 = 0x03;
const WANT_MOUSE_INDEX: u8 = 0x00;

const WANT_TXID: u8 = 0x1F;

const WRONG_TXID: u8 = 0xFF;

const WANT_ZERO_LED: u8 = 0x00;
const WANT_BACKLIGHT_LED: u8 = 0x05;

const KIYO_PRO: u16 = 0x0E05;

#[test]
fn vendor_id_is_exactly_the_c_constant() {
    assert_eq!(VENDOR_ID, WANT_VENDOR_ID);
    assert_eq!(VENDOR_ID, 0x1532);
}

#[test]
fn table_length_is_exactly_three() {
    assert_eq!(
        all().len(),
        3,
        "table must hold exactly the 3 in-scope devices"
    );
}

#[test]
fn table_is_strictly_ascending_by_pid() {
    for w in all().windows(2) {
        assert!(
            w[0].pid < w[1].pid,
            "not strictly ascending: {:#06x} then {:#06x}",
            w[0].pid,
            w[1].pid
        );
    }
}

#[test]
fn table_pids_are_exactly_the_expected_set_in_order() {
    let pids: Vec<u16> = all().iter().map(|e| e.pid).collect();
    assert_eq!(
        pids,
        vec![WANT_BASILISK_WIRED, WANT_BASILISK_WIRELESS, WANT_BLACKWIDOW]
    );
}

#[test]
fn table_names_are_unique() {
    for (i, a) in all().iter().enumerate() {
        for b in all().iter().skip(i + 1) {
            assert_ne!(a.name, b.name, "duplicate device name {:?}", a.name);
        }
    }
}

#[test]
fn table_holds_one_keyboard_and_two_mice() {
    let kbd = all()
        .iter()
        .filter(|e| e.kind == DeviceKind::Keyboard)
        .count();
    let mouse = all().iter().filter(|e| e.kind == DeviceKind::Mouse).count();
    assert_eq!(kbd, 1, "expected exactly one keyboard");
    assert_eq!(mouse, 2, "expected exactly two mice");
}

#[test]
fn blackwidow_v4_pro_every_field_matches_the_c_source() {
    let e = lookup(WANT_BLACKWIDOW).expect("0x028D must be present");
    assert_eq!(e.pid, 0x028D);
    assert_eq!(e.name, "Razer BlackWidow V4 Pro");
    assert!(e.name.contains("BlackWidow V4 Pro"));
    assert_eq!(e.kind, DeviceKind::Keyboard);
    assert_eq!(e.transaction_id, WANT_TXID);
    assert_eq!(e.transaction_id, 0x1F);
    assert_eq!(e.report_index, WANT_KBD_INDEX);
    assert_eq!(e.report_index, 3);
    assert_eq!(e.response_index, WANT_KBD_INDEX);
    assert_eq!(e.response_index, 3);
    assert_eq!(e.wait, Duration::from_micros(WANT_KBD_WAIT_US));
    assert_eq!(e.wait.as_micros(), 600);
    assert_eq!(e.default_led, WANT_BACKLIGHT_LED);
    assert_eq!(e.default_led, 0x05);
    assert_eq!(e.poll_rate_kind, PollRateKind::V2);
}

#[test]
fn basilisk_v3_pro_wired_every_field_matches_the_c_source() {
    let e = lookup(WANT_BASILISK_WIRED).expect("0x00AA must be present");
    assert_eq!(e.pid, 0x00AA);
    assert_eq!(e.name, "Razer Basilisk V3 Pro (Wired)");
    assert!(e.name.contains("Basilisk V3 Pro"));
    assert!(e.name.contains("Wired"));
    assert!(
        !e.name.contains("Wireless"),
        "wired entry must not say Wireless"
    );
    assert_eq!(e.kind, DeviceKind::Mouse);
    assert_eq!(e.transaction_id, WANT_TXID);
    assert_eq!(e.report_index, WANT_MOUSE_INDEX);
    assert_eq!(e.response_index, WANT_MOUSE_INDEX);
    assert_eq!(e.wait, Duration::from_micros(WANT_MOUSE_WAIT_US));
    assert_eq!(e.wait.as_micros(), 31_000);
    assert_eq!(e.default_led, WANT_ZERO_LED);
    assert_eq!(e.poll_rate_kind, PollRateKind::Legacy);
}

#[test]
fn basilisk_v3_pro_wireless_every_field_matches_the_c_source() {
    let e = lookup(WANT_BASILISK_WIRELESS).expect("0x00AB must be present");
    assert_eq!(e.pid, 0x00AB);
    assert_eq!(e.name, "Razer Basilisk V3 Pro (Wireless)");
    assert!(e.name.contains("Basilisk V3 Pro"));
    assert!(e.name.contains("Wireless"));
    assert_eq!(e.kind, DeviceKind::Mouse);
    assert_eq!(e.transaction_id, WANT_TXID);
    assert_eq!(e.report_index, WANT_MOUSE_INDEX);
    assert_eq!(e.response_index, WANT_MOUSE_INDEX);
    assert_eq!(e.wait, Duration::from_micros(WANT_MOUSE_WAIT_US));
    assert_eq!(e.default_led, WANT_ZERO_LED);
    assert_eq!(e.poll_rate_kind, PollRateKind::Legacy);
}

#[test]
fn the_two_basilisk_entries_differ_only_in_pid_and_name() {
    let w = lookup(WANT_BASILISK_WIRED).unwrap();
    let l = lookup(WANT_BASILISK_WIRELESS).unwrap();
    assert_ne!(w.pid, l.pid);
    assert_ne!(w.name, l.name);
    assert_eq!(w.kind, l.kind);
    assert_eq!(w.transaction_id, l.transaction_id);
    assert_eq!(w.report_index, l.report_index);
    assert_eq!(w.response_index, l.response_index);
    assert_eq!(w.wait, l.wait);
    assert_eq!(w.default_led, l.default_led);
    assert_eq!(w.capabilities, l.capabilities);
    assert_eq!(w.poll_rate_kind, l.poll_rate_kind);
}

#[test]
fn every_entry_uses_transaction_id_0x1f() {
    for e in all() {
        assert_eq!(e.transaction_id, WANT_TXID, "{} has wrong txid", e.name);
    }
}

#[test]
fn table_spec_no_entry_uses_the_buggy_0xff_transaction_id() {
    for e in all() {
        assert_ne!(
            e.transaction_id, WRONG_TXID,
            "{} uses the buggy 0xFF",
            e.name
        );
    }
}

#[test]
fn report_index_equals_response_index_for_every_entry() {
    for e in all() {
        assert_eq!(
            e.report_index, e.response_index,
            "{}: report {:#04x} != response {:#04x}",
            e.name, e.report_index, e.response_index
        );
    }
}

#[test]
fn default_led_matches_device_kind() {
    for e in all() {
        let expected = match e.kind {
            DeviceKind::Keyboard => WANT_BACKLIGHT_LED,
            DeviceKind::Mouse => WANT_ZERO_LED,
        };
        assert_eq!(e.default_led, expected, "{} default_led", e.name);
    }
}

#[test]
fn poll_rate_kind_matches_device_kind() {
    for e in all() {
        let expected = match e.kind {
            DeviceKind::Keyboard => PollRateKind::V2,
            DeviceKind::Mouse => PollRateKind::Legacy,
        };
        assert_eq!(e.poll_rate_kind, expected, "{} poll_rate_kind", e.name);
    }
}

#[test]
fn no_entry_has_a_zero_wait() {
    for e in all() {
        assert!(
            e.wait > Duration::from_micros(0),
            "{} must have a non-zero post-SET_REPORT wait",
            e.name
        );
    }
}

#[test]
fn lookup_round_trips_every_entry() {
    for e in all() {
        let got = lookup(e.pid).expect("every table entry must be findable");
        assert_eq!(got.pid, e.pid);
        assert_eq!(
            got, e,
            "lookup returned a different entry for {:#06x}",
            e.pid
        );
    }
}

#[test]
fn exhaustive_sweep_of_the_entire_u16_pid_space() {
    let mut found = Vec::new();
    for pid in 0u16..=u16::MAX {
        if let Some(e) = lookup(pid) {
            assert_eq!(
                e.pid, pid,
                "lookup({:#06x}) returned pid {:#06x}",
                pid, e.pid
            );
            found.push(pid);
        }
    }
    assert_eq!(
        found,
        vec![WANT_BASILISK_WIRED, WANT_BASILISK_WIRELESS, WANT_BLACKWIDOW],
        "exactly three pids in the whole 16-bit space may resolve"
    );
}

#[test]
fn kiyo_pro_webcam_is_absent() {
    assert!(
        lookup(KIYO_PRO).is_none(),
        "0x0E05 is a webcam, out of scope"
    );
}

#[test]
fn neighbouring_and_sentinel_pids_return_none() {
    for pid in [
        0x0000u16, 0xFFFF, 0x028C, 0x028E, 0x00A9, 0x00AC, 0x0E05,
        0x00CC,
        0x00CD,
        0x1532,
    ] {
        assert!(lookup(pid).is_none(), "lookup({pid:#06x}) must be None");
    }
}

#[test]
fn capability_flags_have_exact_pinned_bit_values() {
    assert_eq!(Capabilities::none().bits(), 0b000000);
    assert_eq!(Capabilities::device_mode().bits(), 0b000001);
    assert_eq!(Capabilities::firmware_version().bits(), 0b000010);
    assert_eq!(Capabilities::serial().bits(), 0b000100);
    assert_eq!(Capabilities::brightness().bits(), 0b001000);
    assert_eq!(Capabilities::static_effect().bits(), 0b010000);
    assert_eq!(Capabilities::poll_rate().bits(), 0b100000);
}

#[test]
fn all_six_flags_are_distinct_powers_of_two() {
    let flags = [
        Capabilities::device_mode(),
        Capabilities::firmware_version(),
        Capabilities::serial(),
        Capabilities::brightness(),
        Capabilities::static_effect(),
        Capabilities::poll_rate(),
    ];
    for f in flags {
        assert_eq!(
            f.bits().count_ones(),
            1,
            "{:#x} not a power of two",
            f.bits()
        );
    }
    for (i, a) in flags.iter().enumerate() {
        for b in flags.iter().skip(i + 1) {
            assert_ne!(a.bits(), b.bits());
        }
    }
}

#[test]
fn none_contains_nothing_but_itself() {
    assert!(!Capabilities::none().contains(Capabilities::serial()));
    assert!(!Capabilities::none().contains(Capabilities::device_mode()));
    assert!(!Capabilities::none().contains(Capabilities::firmware_version()));
    assert!(!Capabilities::none().contains(Capabilities::brightness()));
    assert!(!Capabilities::none().contains(Capabilities::static_effect()));
    assert!(!Capabilities::none().contains(Capabilities::poll_rate()));
    assert!(Capabilities::none().contains(Capabilities::none()));
}

#[test]
fn union_contains_its_members_and_nothing_else() {
    let c = Capabilities::serial() | Capabilities::brightness();
    assert!(c.contains(Capabilities::serial()));
    assert!(c.contains(Capabilities::brightness()));
    assert!(c.contains(Capabilities::serial() | Capabilities::brightness()));
    assert!(!c.contains(Capabilities::poll_rate()));
    assert!(!c.contains(Capabilities::device_mode()));
    assert!(!c.contains(Capabilities::firmware_version()));
    assert!(!c.contains(Capabilities::static_effect()));
    assert_eq!(c.bits(), 0b001100);
}

#[test]
fn union_is_commutative_idempotent_and_absorbs_none() {
    let a = Capabilities::device_mode();
    let b = Capabilities::poll_rate();
    assert_eq!((a | b).bits(), (b | a).bits());
    assert_eq!((a | a).bits(), a.bits());
    assert_eq!((a | Capabilities::none()).bits(), a.bits());
    assert_eq!(a.union(b).bits(), (a | b).bits());
}

#[test]
fn contains_is_reflexive_over_every_entry() {
    for e in all() {
        assert!(e.capabilities.contains(e.capabilities));
        assert!(e.capabilities.contains(Capabilities::none()));
    }
}

#[test]
fn every_entry_declares_the_six_required_capabilities_by_literal() {
    for e in all() {
        assert!(
            e.capabilities.contains(Capabilities::device_mode()),
            "{}",
            e.name
        );
        assert!(
            e.capabilities.contains(Capabilities::firmware_version()),
            "{}",
            e.name
        );
        assert!(e.capabilities.contains(Capabilities::serial()), "{}", e.name);
        assert!(
            e.capabilities.contains(Capabilities::brightness()),
            "{}",
            e.name
        );
        assert!(
            e.capabilities.contains(Capabilities::static_effect()),
            "{}",
            e.name
        );
        assert!(
            e.capabilities.contains(Capabilities::poll_rate()),
            "{}",
            e.name
        );
    }
}

#[test]
fn no_entry_declares_capabilities_beyond_the_documented_six() {
    let known = Capabilities::device_mode()
        | Capabilities::firmware_version()
        | Capabilities::serial()
        | Capabilities::brightness()
        | Capabilities::static_effect()
        | Capabilities::poll_rate();
    for e in all() {
        assert_eq!(
            e.capabilities.bits() & !known.bits(),
            0,
            "{} declares an undefined capability bit: {:#x}",
            e.name,
            e.capabilities.bits()
        );
        assert_eq!(e.capabilities.bits(), 0b111111, "{}", e.name);
    }
}

#[test]
fn all_returns_a_stable_static_slice() {
    let a = all();
    let b = all();
    assert_eq!(a.as_ptr(), b.as_ptr());
    assert_eq!(a.len(), b.len());
}

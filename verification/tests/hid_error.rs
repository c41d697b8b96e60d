use razer::hid::HidError;
use razer::proto::report::Status;
use razer::proto::ProtoError;

#[test]
fn an_idle_receiver_is_recognised_from_a_timeout_status() {
    let e = HidError::RetriesExhausted {
        last: ProtoError::DeviceStatus(Status::Timeout),
    };
    assert_eq!(e.terminal_status(), Some(Status::Timeout));
    assert!(e.is_receiver_idle());
}

#[test]
fn the_other_terminal_statuses_are_kept_distinct() {
    for status in [Status::Failure, Status::NotSupported] {
        let e = HidError::RetriesExhausted {
            last: ProtoError::DeviceStatus(status),
        };
        assert_eq!(e.terminal_status(), Some(status));
        assert!(
            !e.is_receiver_idle(),
            "{status:?} must not be mistaken for an idle receiver"
        );
    }
}

#[test]
fn a_transport_fault_carries_no_device_status() {
    let e = HidError::Io {
        op: "HIDIOCSFEATURE",
        errno: 13,
    };
    assert_eq!(e.terminal_status(), None);
    assert!(!e.is_receiver_idle());
}

#[test]
fn a_non_status_protocol_error_is_not_an_idle_receiver() {
    let e = HidError::RetriesExhausted {
        last: ProtoError::BadCrc {
            expected: 0x05,
            got: 0x06,
        },
    };
    assert_eq!(e.terminal_status(), None);
    assert!(!e.is_receiver_idle());
}

#[test]
fn error_display_is_non_empty_for_every_variant() {
    let variants = [
        HidError::DeviceNotFound {
            vid: 0x1532,
            pid: 0x028D,
            interface: 3,
        },
        HidError::UnsupportedDevice { pid: 0x0E05 },
        HidError::Unsupported {
            pid: 0x028D,
            what: "poll rate",
        },
        HidError::DeviceIdentityMismatch {
            path: "/dev/hidraw3".into(),
            expected: (0x1532, 0x028D),
            got: (0x046D, 0xC52B),
        },
        HidError::Io {
            op: "HIDIOCSFEATURE",
            errno: 13,
        },
        HidError::ShortRead { got: 0 },
        HidError::Sysfs("idVendor unreadable".into()),
        HidError::Proto(ProtoError::Malformed("x")),
        HidError::RetriesExhausted {
            last: ProtoError::Malformed("x"),
        },
    ];
    for v in &variants {
        assert!(!v.to_string().is_empty(), "empty Display for {v:?}");
    }
}

#[test]
fn proto_errors_convert() {
    let e: HidError = ProtoError::Malformed("nope").into();
    assert!(matches!(e, HidError::Proto(ProtoError::Malformed("nope"))));
}

#[test]
fn is_a_std_error_with_a_source_where_it_should_be() {
    assert!(
        HidError::Proto(ProtoError::Malformed("x")).source().is_some(),
        "Proto should expose its inner error"
    );
    assert!(
        HidError::ShortRead { got: 1 }.source().is_none(),
        "ShortRead has no inner error"
    );
}

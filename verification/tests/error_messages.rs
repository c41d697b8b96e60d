use razer::hid::HidError;
use razer::proto::{ProtoError, Status};

#[test]
fn protocol_messages_are_exact() {
    let cases = [
        (
            ProtoError::DataSizeTooLarge { got: 81 },
            "data_size 81 exceeds the 80-byte argument array",
        ),
        (
            ProtoError::ResponseMismatch {
                field: "remaining_packets",
                expected: 0x0102,
                got: 0x00,
            },
            "response remaining_packets mismatch: expected 0x102, got 0x00",
        ),
        (
            ProtoError::DeviceStatus(Status::Timeout),
            "device returned status 0x04",
        ),
        (
            ProtoError::DeviceStatus(Status::Unknown(0xAB)),
            "device returned status 0xab",
        ),
        (
            ProtoError::BadCrc {
                expected: 0x05,
                got: 0xF0,
            },
            "bad crc: expected 0x05, got 0xf0",
        ),
        (ProtoError::Malformed("nope"), "malformed report: nope"),
    ];
    for (error, message) in cases {
        assert_eq!(error.to_string(), message);
    }
}

#[test]
fn device_messages_are_exact() {
    let cases = [
        (
            HidError::DeviceNotFound {
                vid: 0x1532,
                pid: 0x028D,
                interface: 3,
            },
            "no hidraw node for 1532:028d on USB interface 3",
        ),
        (
            HidError::UnsupportedDevice { pid: 0x0E05 },
            "product id 0x0e05 is not a supported device",
        ),
        (
            HidError::Unsupported {
                pid: 0x00AA,
                what: "poll rate",
            },
            "device 0x00aa does not support poll rate",
        ),
        (
            HidError::Io {
                op: "HIDIOCSFEATURE",
                errno: 13,
            },
            "HIDIOCSFEATURE failed: errno 13",
        ),
        (
            HidError::Io {
                op: "open",
                errno: -2,
            },
            "open failed: errno -2",
        ),
        (
            HidError::ShortRead { got: 12 },
            "short feature read: got 12 bytes, expected 91",
        ),
        (HidError::Sysfs("gone".into()), "sysfs: gone"),
        (
            HidError::Proto(ProtoError::Malformed("x")),
            "protocol error: malformed report: x",
        ),
        (
            HidError::RetriesExhausted {
                last: ProtoError::DeviceStatus(Status::Failure),
            },
            "all 5 attempts failed, last error: device returned status 0x03",
        ),
    ];
    for (error, message) in cases {
        assert_eq!(error.to_string(), message);
    }
}

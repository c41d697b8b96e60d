use razer::proto::cmd;
use razer::proto::crc::crc;
use razer::proto::report::{
    DeviceMode, LedId, PollRate, RazerReport, Rgb, Status, Storage, ARGS_LEN, REPORT_LEN,
};

#[test]
fn encoded_report_is_ninety_bytes() {
    assert_eq!(RazerReport::new(0x00, 0x04, 0x02).to_bytes().len(), 90);
    assert_eq!(REPORT_LEN, 90);
    assert_eq!(ARGS_LEN, 80);
}

fn sample() -> RazerReport {
    let mut r = RazerReport::new(0x0F, 0x84, 0x03).with_transaction_id(0x1F);
    r.remaining_packets = 0x0102;
    r.protocol_type = 0x00;
    r.reserved = 0x00;
    r.arguments[0] = 0x01;
    r.arguments[1] = 0x05;
    r.arguments[79] = 0xAB;
    r
}

#[test]
fn round_trip_preserves_every_field_and_stamps_crc() {
    let r = sample();
    let bytes = r.to_bytes();
    let back = RazerReport::from_bytes(&bytes);

    assert_eq!(back.status, r.status);
    assert_eq!(back.transaction_id, r.transaction_id);
    assert_eq!(back.remaining_packets, r.remaining_packets);
    assert_eq!(back.protocol_type, r.protocol_type);
    assert_eq!(back.data_size, r.data_size);
    assert_eq!(back.command_class, r.command_class);
    assert_eq!(back.command_id, r.command_id);
    assert_eq!(back.arguments, r.arguments);
    assert_eq!(back.reserved, r.reserved);
    assert_eq!(back.crc, crc(&bytes));

    let mut expected = r;
    expected.crc = crc(&bytes);
    assert_eq!(back, expected);
}

#[test]
fn field_offsets_are_exact() {
    let mut r = RazerReport::new(0xC1, 0xC2, 0xC3).with_transaction_id(0xB1);
    r.status = Status::Unknown(0xB0);
    r.remaining_packets = 0xB2B3;
    r.protocol_type = 0xB4;
    r.reserved = 0xDD;
    for (i, a) in r.arguments.iter_mut().enumerate() {
        *a = 0xE0u8.wrapping_add(i as u8);
    }
    let b = r.to_bytes();

    assert_eq!(b[0], 0xB0, "status@0");
    assert_eq!(b[1], 0xB1, "transaction id@1");
    assert_eq!([b[2], b[3]], [0xB2, 0xB3], "remaining_packets@2..4");
    assert_eq!(b[4], 0xB4, "protocol_type@4");
    assert_eq!(b[5], 0xC3, "data_size@5");
    assert_eq!(b[6], 0xC1, "command_class@6");
    assert_eq!(b[7], 0xC2, "command_id@7");
    assert_eq!(&b[8..88], &r.arguments[..], "arguments@8..88");
    assert_eq!(b[88], crc(&b), "crc@88");
    assert_eq!(b[89], 0xDD, "reserved@89");
}

#[test]
fn remaining_packets_is_big_endian() {
    let mut r = RazerReport::new(0x00, 0x04, 0x02);
    r.remaining_packets = 0x0102;
    let b = r.to_bytes();
    assert_eq!(b[2], 0x01);
    assert_eq!(b[3], 0x02);
    assert_eq!(RazerReport::from_bytes(&b).remaining_packets, 0x0102);
}

#[test]
fn golden_vector_set_driver_mode_on_the_blackwidow_v4_pro() {
    let bytes = cmd::set_device_mode(DeviceMode::Driver)
        .with_transaction_id(0x1F)
        .to_bytes();

    let mut expected = [0u8; REPORT_LEN];
    expected[0] = 0x00;
    expected[1] = 0x1F;
    expected[2] = 0x00;
    expected[3] = 0x00;
    expected[4] = 0x00;
    expected[5] = 0x02;
    expected[6] = 0x00;
    expected[7] = 0x04;
    expected[8] = 0x03;
    expected[9] = 0x00;
    expected[88] = 0x05;
    expected[89] = 0x00;

    assert_eq!(bytes, expected);
    let by_hand = [0x02u8, 0x00, 0x04, 0x03]
        .iter()
        .fold(0u8, |acc, b| acc ^ b);
    assert_eq!(bytes[88], by_hand);
    assert_eq!(by_hand, 0x05);
}

#[test]
fn transaction_id_does_not_disturb_the_encoded_crc() {
    let base = cmd::set_device_mode(DeviceMode::Driver);
    let good = base.with_transaction_id(0x1F).to_bytes();
    let bugged = base.with_transaction_id(0xFF).to_bytes();
    assert_eq!(good[88], bugged[88]);
    assert_ne!(good[1], bugged[1]);
}

#[test]
fn with_args_fills_the_front_of_the_array() {
    let r = RazerReport::new(0x0F, 0x02, 0x09).with_args(&[1, 2, 3]);
    assert_eq!(&r.arguments[..3], &[1, 2, 3]);
    assert!(r.arguments[3..].iter().all(|&b| b == 0));
    assert_eq!(r.data_size, 0x09, "with_args must not touch data_size");
}

#[test]
fn with_args_accepts_a_full_array() {
    let r = RazerReport::new(0, 0, 0).with_args(&[0xAA; ARGS_LEN]);
    assert!(r.arguments.iter().all(|&b| b == 0xAA));
}

#[test]
fn args_is_clamped_to_data_size_and_to_the_array() {
    let r = RazerReport::new(0x0F, 0x04, 0x03).with_args(&[0x01, 0x05, 0x80, 0xFF]);
    assert_eq!(r.args(), &[0x01, 0x05, 0x80]);

    let mut oversized = r;
    oversized.data_size = 200;
    assert_eq!(oversized.args().len(), ARGS_LEN);
}

#[test]
fn is_get_reads_the_direction_bit() {
    assert!(!RazerReport::new(0x00, 0x04, 0x02).is_get());
    assert!(RazerReport::new(0x00, 0x84, 0x02).is_get());
    assert!(RazerReport::new(0x00, 0xC0, 0x01).is_get());
}

#[test]
fn status_round_trips_including_unknown() {
    for v in 0..=u8::MAX {
        assert_eq!(Status::from_u8(v).to_u8(), v);
    }
    assert_eq!(Status::from_u8(0x7F), Status::Unknown(0x7F));
}

#[test]
fn only_successful_and_busy_are_ok() {
    assert!(Status::Successful.is_ok());
    assert!(Status::Busy.is_ok());
    assert!(!Status::New.is_ok());
    assert!(!Status::Failure.is_ok());
    assert!(!Status::Timeout.is_ok());
    assert!(!Status::NotSupported.is_ok());
    assert!(!Status::Unknown(0x42).is_ok());
}

#[test]
fn device_mode_0x02_is_not_representable() {
    assert_eq!(DeviceMode::from_u8(0x02), None);
    assert_eq!(DeviceMode::from_u8(0x00), Some(DeviceMode::Normal));
    assert_eq!(DeviceMode::from_u8(0x03), Some(DeviceMode::Driver));
    assert_eq!(DeviceMode::from_u8(0x01), None);
    assert_eq!(DeviceMode::Normal.to_u8(), 0x00);
    assert_eq!(DeviceMode::Driver.to_u8(), 0x03);
}

#[test]
fn storage_and_led_discriminants_match_the_c_defines() {
    assert_eq!(Storage::NoStore.to_u8(), 0x00);
    assert_eq!(Storage::VarStore.to_u8(), 0x01);
    assert_eq!(LedId::Zero.to_u8(), 0x00);
    assert_eq!(LedId::ScrollWheel.to_u8(), 0x01);
    assert_eq!(LedId::Logo.to_u8(), 0x04);
    assert_eq!(LedId::Backlight.to_u8(), 0x05);
}

const ALL_RATES: [PollRate; 7] = [
    PollRate::Hz125,
    PollRate::Hz250,
    PollRate::Hz500,
    PollRate::Hz1000,
    PollRate::Hz2000,
    PollRate::Hz4000,
    PollRate::Hz8000,
];

#[test]
fn poll_rate_hz_round_trips() {
    for r in ALL_RATES {
        assert_eq!(PollRate::from_hz(r.hz()), Some(r));
    }
    assert_eq!(PollRate::from_hz(333), None);
    assert_eq!(PollRate::from_hz(0), None);
}

#[test]
fn legacy_codes_match_the_c_switch() {
    assert_eq!(PollRate::Hz1000.legacy_code(), Some(0x01));
    assert_eq!(PollRate::Hz500.legacy_code(), Some(0x02));
    assert_eq!(PollRate::Hz125.legacy_code(), Some(0x08));
    assert_eq!(PollRate::Hz250.legacy_code(), None);
    assert_eq!(PollRate::Hz2000.legacy_code(), None);
    assert_eq!(PollRate::Hz4000.legacy_code(), None);
    assert_eq!(PollRate::Hz8000.legacy_code(), None);

    for r in ALL_RATES {
        if let Some(c) = r.legacy_code() {
            assert_eq!(PollRate::from_legacy_code(c), Some(r));
        }
    }
    assert_eq!(PollRate::from_legacy_code(0x40), None);
}

#[test]
fn v2_codes_match_the_c_switch() {
    assert_eq!(PollRate::Hz8000.v2_code(), 0x01);
    assert_eq!(PollRate::Hz4000.v2_code(), 0x02);
    assert_eq!(PollRate::Hz2000.v2_code(), 0x04);
    assert_eq!(PollRate::Hz1000.v2_code(), 0x08);
    assert_eq!(PollRate::Hz500.v2_code(), 0x10);
    assert_eq!(PollRate::Hz250.v2_code(), 0x20);
    assert_eq!(PollRate::Hz125.v2_code(), 0x40);

    for r in ALL_RATES {
        assert_eq!(PollRate::from_v2_code(r.v2_code()), Some(r));
    }
    assert_eq!(PollRate::from_v2_code(0x00), None);
    assert_eq!(PollRate::from_v2_code(0x03), None);
}

#[test]
fn rgb_new_keeps_channel_order() {
    let c = Rgb::new(0x11, 0x22, 0x33);
    assert_eq!((c.r, c.g, c.b), (0x11, 0x22, 0x33));
}

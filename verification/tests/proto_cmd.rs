use razer::proto::cmd::{
    get_brightness, get_device_mode, get_firmware_version, get_poll_rate_legacy, get_poll_rate_v2,
    get_serial, set_brightness, set_device_mode, set_effect_none, set_poll_rate_legacy,
    set_poll_rate_v2, set_static_effect,
};
use razer::proto::crc::verify_crc;
use razer::proto::error::ProtoError;
use razer::proto::report::{
    DeviceMode, LedId, PollRate, RazerReport, Rgb, Status, Storage, ARGS_LEN,
};

fn assert_cmd(r: &RazerReport, class: u8, id: u8, data_size: u8, args: &[u8]) {
    assert_eq!(r.command_class, class, "command class");
    assert_eq!(r.command_id, id, "command id");
    assert_eq!(r.data_size, data_size, "data size");
    assert_eq!(r.args(), args, "arguments");
}

#[test]
fn set_device_mode_payloads() {
    assert_cmd(
        &set_device_mode(DeviceMode::Normal),
        0x00,
        0x04,
        0x02,
        &[0x00, 0x00],
    );
    assert_cmd(
        &set_device_mode(DeviceMode::Driver),
        0x00,
        0x04,
        0x02,
        &[0x03, 0x00],
    );
}

#[test]
fn standard_getters() {
    assert_cmd(&get_device_mode(), 0x00, 0x84, 0x02, &[0x00, 0x00]);
    assert_cmd(&get_firmware_version(), 0x00, 0x81, 0x02, &[0x00, 0x00]);
    assert_cmd(&get_serial(), 0x00, 0x82, 0x16, &[0x00; 0x16]);
}

#[test]
fn set_brightness_payload() {
    assert_cmd(
        &set_brightness(Storage::VarStore, LedId::Backlight, 0x80),
        0x0F,
        0x04,
        0x03,
        &[0x01, 0x05, 0x80],
    );
    assert_cmd(
        &set_brightness(Storage::VarStore, LedId::Zero, 0xFF),
        0x0F,
        0x04,
        0x03,
        &[0x01, 0x00, 0xFF],
    );
}

#[test]
fn get_brightness_payload() {
    let r = get_brightness(Storage::VarStore, LedId::Backlight);
    assert_eq!(&r.args()[..2], &[0x01, 0x05]);
    assert_cmd(&r, 0x0F, 0x84, 0x03, &[0x01, 0x05, 0x00]);
}

#[test]
fn static_effect_matches_the_documented_byte_string() {
    let r = set_static_effect(
        Storage::VarStore,
        LedId::Backlight,
        Rgb::new(0xFF, 0x00, 0x00),
    );
    assert_cmd(
        &r,
        0x0F,
        0x02,
        0x09,
        &[0x01, 0x05, 0x01, 0x00, 0x00, 0x01, 0xFF, 0x00, 0x00],
    );

    let g = set_static_effect(
        Storage::VarStore,
        LedId::Backlight,
        Rgb::new(0x00, 0xFF, 0x00),
    );
    assert_eq!(
        g.args(),
        &[0x01, 0x05, 0x01, 0x00, 0x00, 0x01, 0x00, 0xFF, 0x00]
    );
}

#[test]
fn effect_none_payload() {
    assert_cmd(
        &set_effect_none(Storage::VarStore, LedId::Backlight),
        0x0F,
        0x02,
        0x06,
        &[0x01, 0x05, 0x00, 0x00, 0x00, 0x00],
    );
}

#[test]
fn legacy_poll_rate_payloads() {
    let r = set_poll_rate_legacy(PollRate::Hz1000).expect("1000 Hz is legacy-encodable");
    assert_cmd(&r, 0x00, 0x05, 0x01, &[0x01]);
    assert_eq!(
        set_poll_rate_legacy(PollRate::Hz500)
            .expect("500 Hz is legacy-encodable")
            .args(),
        &[0x02]
    );
    assert_eq!(
        set_poll_rate_legacy(PollRate::Hz125)
            .expect("125 Hz is legacy-encodable")
            .args(),
        &[0x08]
    );

    for rate in [
        PollRate::Hz250,
        PollRate::Hz2000,
        PollRate::Hz4000,
        PollRate::Hz8000,
    ] {
        assert!(
            matches!(set_poll_rate_legacy(rate), Err(ProtoError::Malformed(_))),
            "{rate:?} must not be legacy-encodable"
        );
    }
}

#[test]
fn get_poll_rate_legacy_shape() {
    assert_cmd(&get_poll_rate_legacy(), 0x00, 0x85, 0x01, &[0x00]);
}

#[test]
fn v2_poll_rate_payloads() {
    let cases = [
        (PollRate::Hz8000, 0x01u8),
        (PollRate::Hz4000, 0x02),
        (PollRate::Hz2000, 0x04),
        (PollRate::Hz1000, 0x08),
        (PollRate::Hz500, 0x10),
        (PollRate::Hz250, 0x20),
        (PollRate::Hz125, 0x40),
    ];
    for (rate, code) in cases {
        assert_cmd(
            &set_poll_rate_v2(rate, 0x00),
            0x00,
            0x40,
            0x02,
            &[0x00, code],
        );
    }
    assert_eq!(
        set_poll_rate_v2(PollRate::Hz1000, 0x01).args(),
        &[0x01, 0x08]
    );
}

#[test]
fn get_poll_rate_v2_shape() {
    assert_cmd(&get_poll_rate_v2(), 0x00, 0xC0, 0x01, &[0x00]);
}

#[test]
fn no_constructor_stamps_an_id() {
    let reports = [
        set_device_mode(DeviceMode::Normal),
        set_device_mode(DeviceMode::Driver),
        get_device_mode(),
        get_firmware_version(),
        get_serial(),
        set_brightness(Storage::VarStore, LedId::Backlight, 0x80),
        get_brightness(Storage::VarStore, LedId::Backlight),
        set_static_effect(Storage::VarStore, LedId::Backlight, Rgb::new(1, 2, 3)),
        set_effect_none(Storage::VarStore, LedId::Backlight),
        set_poll_rate_legacy(PollRate::Hz1000).expect("legacy-encodable"),
        get_poll_rate_legacy(),
        set_poll_rate_v2(PollRate::Hz1000, 0x00),
        get_poll_rate_v2(),
    ];
    for r in reports {
        assert_eq!(
            r.to_bytes()[1],
            0x00,
            "constructor for class {:#04x} id {:#04x} stamped byte 1",
            r.command_class,
            r.command_id
        );
    }
}

#[test]
fn every_constructor_is_well_formed() {
    let reports = [
        set_device_mode(DeviceMode::Driver),
        get_device_mode(),
        get_firmware_version(),
        get_serial(),
        set_brightness(Storage::VarStore, LedId::Backlight, 0x80),
        get_brightness(Storage::VarStore, LedId::Backlight),
        set_static_effect(Storage::VarStore, LedId::Backlight, Rgb::new(1, 2, 3)),
        set_effect_none(Storage::VarStore, LedId::Backlight),
        set_poll_rate_legacy(PollRate::Hz125).expect("legacy-encodable"),
        get_poll_rate_legacy(),
        set_poll_rate_v2(PollRate::Hz8000, 0x00),
        get_poll_rate_v2(),
    ];
    for r in reports {
        assert_eq!(r.status, Status::New);
        assert_eq!(r.remaining_packets, 0);
        assert_eq!(r.protocol_type, 0x00);
        assert_eq!(r.reserved, 0x00);
        assert!(r.data_size as usize <= ARGS_LEN);
        let bytes = r.to_bytes();
        assert!(verify_crc(&bytes));
    }
}

#[test]
fn getters_have_the_direction_bit_set_and_setters_do_not() {
    for r in [
        get_device_mode(),
        get_firmware_version(),
        get_serial(),
        get_brightness(Storage::VarStore, LedId::Backlight),
        get_poll_rate_legacy(),
        get_poll_rate_v2(),
    ] {
        assert!(r.is_get(), "class {:#04x} should be a get", r.command_class);
    }
    for r in [
        set_device_mode(DeviceMode::Driver),
        set_brightness(Storage::VarStore, LedId::Backlight, 0x80),
        set_static_effect(Storage::VarStore, LedId::Backlight, Rgb::new(1, 2, 3)),
        set_effect_none(Storage::VarStore, LedId::Backlight),
        set_poll_rate_v2(PollRate::Hz1000, 0x00),
    ] {
        assert!(!r.is_get());
    }
}

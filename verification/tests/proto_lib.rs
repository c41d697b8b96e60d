use razer::proto::{
    cmd, crc, verify_crc, DeviceMode, LedId, PollRate, ProtoError, RazerReport, Rgb, Status,
    Storage, ARGS_LEN, REPORT_LEN,
};

#[test]
fn public_surface_is_reachable_from_the_crate_root() {
    assert_eq!(REPORT_LEN, 90);
    assert_eq!(ARGS_LEN, 80);

    let report: RazerReport = cmd::set_static_effect(
        Storage::VarStore,
        LedId::Backlight,
        Rgb::new(0xFF, 0x00, 0x00),
    );
    let bytes = report.to_bytes();
    assert!(verify_crc(&bytes));
    assert_eq!(crc(&bytes), bytes[88]);

    let status: Status = Status::from_u8(bytes[0]);
    assert_eq!(status, Status::New);

    let mode: DeviceMode = DeviceMode::Driver;
    assert_eq!(mode.to_u8(), 0x03);

    let rate: PollRate = PollRate::Hz1000;
    assert_eq!(rate.hz(), 1000);

    let err: ProtoError = ProtoError::DataSizeTooLarge { got: 81 };
    assert!(!err.to_string().is_empty());
}

#[test]
fn no_command_constructor_sets_a_transaction_id() {
    let reports = [
        cmd::set_device_mode(DeviceMode::Normal),
        cmd::set_device_mode(DeviceMode::Driver),
        cmd::get_device_mode(),
        cmd::get_firmware_version(),
        cmd::get_serial(),
        cmd::set_brightness(Storage::VarStore, LedId::Backlight, 0x80),
        cmd::get_brightness(Storage::VarStore, LedId::Backlight),
        cmd::set_static_effect(Storage::VarStore, LedId::Zero, Rgb::new(1, 2, 3)),
        cmd::set_effect_none(Storage::VarStore, LedId::Backlight),
        cmd::set_poll_rate_legacy(PollRate::Hz1000).expect("1000 Hz is legacy-encodable"),
        cmd::get_poll_rate_legacy(),
        cmd::set_poll_rate_v2(PollRate::Hz1000, 0x00),
        cmd::get_poll_rate_v2(),
    ];
    for r in reports {
        assert_eq!(
            r.transaction_id, 0x00,
            "class {:#04x} id {:#04x} came out of cmd with an id already stamped",
            r.command_class, r.command_id
        );
    }
}

#[test]
fn blackwidow_v4_pro_driver_mode_frame() {
    let bytes = cmd::set_device_mode(DeviceMode::Driver)
        .with_transaction_id(0x1F)
        .to_bytes();

    assert_eq!(
        &bytes[0..10],
        &[0x00, 0x1F, 0x00, 0x00, 0x00, 0x02, 0x00, 0x04, 0x03, 0x00]
    );
    assert!(bytes[10..88].iter().all(|&b| b == 0));
    assert_eq!(bytes[88], 0x05);
    assert_eq!(bytes[89], 0x00);
}

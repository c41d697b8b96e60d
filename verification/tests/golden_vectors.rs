use razer::proto::{cmd, verify_crc, DeviceMode, RazerReport, REPORT_LEN};

/// The exact bytes of a named frame: header, arguments and checksum.
fn vector(name: &str) -> [u8; REPORT_LEN] {
    let (header, first_argument, checksum): ([u8; 8], u8, u8) = match name {
        "firmware_version_v4pro" => {
            ([0x00, 0x1F, 0x00, 0x00, 0x00, 0x02, 0x00, 0x81], 0x00, 0x83)
        }
        "serial_v4pro" => ([0x00, 0x1F, 0x00, 0x00, 0x00, 0x16, 0x00, 0x82], 0x00, 0x94),
        "device_mode_driver_correct" => {
            ([0x00, 0x1F, 0x00, 0x00, 0x00, 0x02, 0x00, 0x04], 0x03, 0x05)
        }
        "device_mode_driver_buggy" => {
            ([0x00, 0xFF, 0x00, 0x00, 0x00, 0x02, 0x00, 0x04], 0x03, 0x05)
        }
        "device_mode_device_correct" => {
            ([0x00, 0x1F, 0x00, 0x00, 0x00, 0x02, 0x00, 0x04], 0x00, 0x06)
        }
        other => panic!("no vector called `{other}`"),
    };
    let mut bytes = [0u8; REPORT_LEN];
    bytes[..8].copy_from_slice(&header);
    bytes[8] = first_argument;
    bytes[88] = checksum;
    bytes
}

fn assert_matches(name: &str, built: RazerReport) {
    let want = vector(name);
    let got = built.to_bytes();

    if let Some(i) = (0..REPORT_LEN).find(|&i| want[i] != got[i]) {
        panic!(
            "`{name}` differs at byte {i}: expected {:#04x}, constructed {:#04x}\n\
             expected:    {}\n\
             constructed: {}",
            want[i],
            got[i],
            want.iter().map(|b| format!("{b:02x}")).collect::<String>(),
            got.iter().map(|b| format!("{b:02x}")).collect::<String>(),
        );
    }
}

#[test]
fn every_vector_is_ninety_bytes_and_checksum_valid() {
    for name in [
        "firmware_version_v4pro",
        "serial_v4pro",
        "device_mode_driver_correct",
        "device_mode_driver_buggy",
        "device_mode_device_correct",
    ] {
        let bytes = vector(name);
        assert!(
            verify_crc(&bytes),
            "`{name}` carries a checksum the device would accept"
        );
    }
}

#[test]
fn firmware_version_vector_matches_the_constructor() {
    assert_matches(
        "firmware_version_v4pro",
        cmd::get_firmware_version().with_transaction_id(0x1F),
    );
}

#[test]
fn serial_vector_matches_the_constructor() {
    assert_matches("serial_v4pro", cmd::get_serial().with_transaction_id(0x1F));
}

#[test]
fn phase3_arm_c_is_the_correct_driver_mode_frame() {
    assert_matches(
        "device_mode_driver_correct",
        cmd::set_device_mode(DeviceMode::Driver).with_transaction_id(0x1F),
    );
}

#[test]
fn phase3_arm_b_is_the_upstream_buggy_frame() {
    assert_matches(
        "device_mode_driver_buggy",
        cmd::set_device_mode(DeviceMode::Driver).with_transaction_id(0xFF),
    );
}

#[test]
fn returning_to_normal_mode_matches_the_constructor() {
    assert_matches(
        "device_mode_device_correct",
        cmd::set_device_mode(DeviceMode::Normal).with_transaction_id(0x1F),
    );
}

#[test]
fn the_two_experiment_arms_differ_only_at_the_transaction_id() {
    let good = vector("device_mode_driver_correct");
    let bad = vector("device_mode_driver_buggy");

    let differing: Vec<usize> = (0..REPORT_LEN).filter(|&i| good[i] != bad[i]).collect();
    assert_eq!(differing, vec![1], "only byte 1 may differ");

    assert_eq!(good[1], 0x1F, "arm C uses the per-device transaction id");
    assert_eq!(bad[1], 0xFF, "arm B carries the wrong transaction id");
    assert_eq!(good[88], bad[88], "the checksum cannot see the difference");
    assert!(verify_crc(&good) && verify_crc(&bad));
}

#[test]
fn no_vector_leaves_the_transaction_id_unstamped() {
    for name in [
        "firmware_version_v4pro",
        "serial_v4pro",
        "device_mode_driver_correct",
        "device_mode_device_correct",
    ] {
        assert_ne!(vector(name)[1], 0x00, "`{name}` must stamp a real tid");
        assert_ne!(vector(name)[1], 0xFF, "`{name}` must not use the buggy tid");
    }
}

use razer::proto::cmd;
use razer::proto::crc::{crc, verify_crc};
use razer::proto::error::ProtoError;
use razer::proto::parse::{
    brightness, check_response, device_mode, firmware_version, poll_rate_legacy, poll_rate_v2,
    serial,
};
use razer::proto::report::{DeviceMode, LedId, PollRate, RazerReport, Status, Storage, ARGS_LEN};

fn respond(request: &RazerReport, status: Status, args: &[u8]) -> RazerReport {
    let mut r = *request;
    r.status = status;
    r.arguments = [0u8; ARGS_LEN];
    r.arguments[..args.len()].copy_from_slice(args);
    r
}

#[test]
fn successful_and_busy_are_both_accepted() {
    let req = cmd::get_device_mode();
    for status in [Status::Successful, Status::Busy] {
        let resp = respond(&req, status, &[0x03, 0x00]);
        assert_eq!(check_response(&req, &resp), Ok(()));
    }
}

#[test]
fn mismatches_and_bad_statuses_are_rejected() {
    let req = cmd::get_device_mode();

    let mut wrong_class = respond(&req, Status::Successful, &[]);
    wrong_class.command_class = 0x0F;
    assert_eq!(
        check_response(&req, &wrong_class),
        Err(ProtoError::ResponseMismatch {
            field: "command_class",
            expected: 0x00,
            got: 0x0F,
        })
    );

    let mut wrong_id = respond(&req, Status::Successful, &[]);
    wrong_id.command_id = 0x04;
    assert_eq!(
        check_response(&req, &wrong_id),
        Err(ProtoError::ResponseMismatch {
            field: "command_id",
            expected: 0x84,
            got: 0x04,
        })
    );

    let mut wrong_packets = respond(&req, Status::Successful, &[]);
    wrong_packets.remaining_packets = 0x0001;
    assert_eq!(
        check_response(&req, &wrong_packets),
        Err(ProtoError::ResponseMismatch {
            field: "remaining_packets",
            expected: 0,
            got: 1,
        })
    );

    let not_supported = respond(&req, Status::NotSupported, &[]);
    assert_eq!(
        check_response(&req, &not_supported),
        Err(ProtoError::DeviceStatus(Status::NotSupported))
    );

    for status in [
        Status::New,
        Status::Failure,
        Status::Timeout,
        Status::Unknown(0x42),
    ] {
        let resp = respond(&req, status, &[]);
        assert_eq!(
            check_response(&req, &resp),
            Err(ProtoError::DeviceStatus(status))
        );
    }
}

#[test]
fn oversized_data_size_is_rejected() {
    let req = cmd::get_device_mode();

    let mut fat_response = respond(&req, Status::Successful, &[]);
    fat_response.data_size = 81;
    assert_eq!(
        check_response(&req, &fat_response),
        Err(ProtoError::DataSizeTooLarge { got: 81 })
    );

    let mut fat_request = req;
    fat_request.data_size = 81;
    let resp = respond(&fat_request, Status::Successful, &[]);
    assert_eq!(
        check_response(&fat_request, &resp),
        Err(ProtoError::DataSizeTooLarge { got: 81 })
    );

    let mut at_limit = req;
    at_limit.data_size = 80;
    let ok = respond(&at_limit, Status::Successful, &[]);
    assert_eq!(check_response(&at_limit, &ok), Ok(()));
}

#[test]
fn brightness_reads_argument_two() {
    let req = cmd::get_brightness(Storage::VarStore, LedId::Backlight);
    let resp = respond(&req, Status::Successful, &[0x01, 0x05, 0x42]);
    assert_eq!(brightness(&resp), Ok(0x42));
    assert_ne!(brightness(&resp), Ok(0x01));
}

#[test]
fn poll_rate_readers_use_different_indices() {
    let req = cmd::get_poll_rate_v2();
    let resp = respond(&req, Status::Successful, &[0x01, 0x10]);

    assert_eq!(poll_rate_legacy(&resp), Ok(PollRate::Hz1000));
    assert_eq!(poll_rate_v2(&resp), Ok(PollRate::Hz500));
    assert_ne!(poll_rate_legacy(&resp), poll_rate_v2(&resp));
}

#[test]
fn poll_rate_readers_reject_unknown_codes() {
    let req = cmd::get_poll_rate_legacy();
    let resp = respond(&req, Status::Successful, &[0x7E, 0x7E]);
    assert!(matches!(
        poll_rate_legacy(&resp),
        Err(ProtoError::Malformed(_))
    ));
    assert!(matches!(poll_rate_v2(&resp), Err(ProtoError::Malformed(_))));
}

#[test]
fn serial_trims_at_the_nul() {
    let req = cmd::get_serial();
    let resp = respond(&req, Status::Successful, b"XX1234567890123456789\0");
    let s = serial(&resp).expect("ASCII serial");
    assert_eq!(s, "XX1234567890123456789");
    assert_eq!(s.len(), 21);
    assert!(!s.contains('\0'));
    assert_eq!(s.trim_end(), s);
}

#[test]
fn serial_trims_trailing_whitespace_and_handles_a_full_field() {
    let req = cmd::get_serial();

    let padded = respond(&req, Status::Successful, b"PM12345678   \0");
    assert_eq!(serial(&padded).expect("ASCII"), "PM12345678");

    let full = respond(&req, Status::Successful, b"0123456789ABCDEFGHIJKL");
    assert_eq!(serial(&full).expect("ASCII"), "0123456789ABCDEFGHIJKL");

    let mut bleed = respond(&req, Status::Successful, b"0123456789ABCDEFGHIJKL");
    bleed.arguments[22] = b'Z';
    assert_eq!(serial(&bleed).expect("ASCII"), "0123456789ABCDEFGHIJKL");

    let empty = respond(&req, Status::Successful, &[]);
    assert_eq!(serial(&empty).expect("ASCII"), "");
}

#[test]
fn serial_rejects_non_ascii() {
    let req = cmd::get_serial();
    let resp = respond(&req, Status::Successful, &[0xFF, 0xFE, 0x00]);
    assert_eq!(
        serial(&resp),
        Err(ProtoError::Malformed("serial is not ASCII"))
    );
}

#[test]
fn firmware_version_reads_the_first_two_arguments() {
    let req = cmd::get_firmware_version();
    let resp = respond(&req, Status::Successful, &[0x01, 0x0B, 0xFF]);
    assert_eq!(firmware_version(&resp), Ok((1, 11)));
}

#[test]
fn device_mode_returns_the_raw_pair() {
    let req = cmd::get_device_mode();

    let driver = respond(&req, Status::Successful, &[0x03, 0x00]);
    assert_eq!(device_mode(&driver), Ok((0x03, 0x00)));
    assert_eq!(
        DeviceMode::from_u8(device_mode(&driver).expect("pair").0),
        Some(DeviceMode::Driver)
    );

    let odd = respond(&req, Status::Successful, &[0x02, 0x00]);
    assert_eq!(device_mode(&odd), Ok((0x02, 0x00)));
    assert_eq!(DeviceMode::from_u8(0x02), None);
}

#[test]
fn end_to_end_over_the_wire_form() {
    let request = cmd::set_device_mode(DeviceMode::Driver).with_transaction_id(0x1F);
    let request_bytes = request.to_bytes();
    assert!(verify_crc(&request_bytes));

    let mut reply_bytes = request_bytes;
    reply_bytes[0] = Status::Successful.to_u8();
    reply_bytes[88] = crc(&reply_bytes);

    let response = RazerReport::from_bytes(&reply_bytes);
    assert_eq!(check_response(&request, &response), Ok(()));
    assert_eq!(device_mode(&response), Ok((0x03, 0x00)));
}

use razer::devices::{lookup, Capabilities, DeviceEntry, DeviceKind, PollRateKind};
use razer::hid::{HidError, MockClock, MockTransport, Session, HIDRAW_BUF_LEN};
use razer::proto::report::{LedId, Storage};
use razer::proto::{cmd, crc, DeviceMode, PollRate, ProtoError, RazerReport, Rgb, Status};
use razer::time::Duration;

const MAX_ATTEMPTS: usize = 5;
const RETRY_DELAY: Duration = Duration { nanos: 10_000_000 };

const BLACKWIDOW_V4_PRO: u16 = 0x028D;
const BASILISK_WIRELESS: u16 = 0x00AB;
const BASILISK_WIRED: u16 = 0x00AA;

const KBD_WAIT: Duration = Duration { nanos: 600_000 };
const MOUSE_WAIT: Duration = Duration { nanos: 31_000_000 };

fn entry(pid: u16) -> &'static DeviceEntry {
    lookup(pid).unwrap_or_else(|| panic!("{pid:#06x} is in the table"))
}

static NO_CAPABILITIES: DeviceEntry = DeviceEntry {
    pid: 0xDEAD,
    name: "synthetic capability-guard entry",
    kind: DeviceKind::Keyboard,
    transaction_id: 0x1F,
    report_index: 0x03,
    response_index: 0x03,
    wait: KBD_WAIT,
    capabilities: Capabilities(0),
    default_led: 0x05,
    poll_rate_kind: PollRateKind::V2,
};

fn ok_response(request: &RazerReport, args: &[u8]) -> RazerReport {
    let mut r = RazerReport::new(request.command_class, request.command_id, request.data_size)
        .with_args(args);
    r.status = Status::Successful;
    r.remaining_packets = request.remaining_packets;
    r
}

fn assert_frames_well_formed(transport: &MockTransport) {
    for (i, buf) in transport.sent().iter().enumerate() {
        assert_eq!(buf.len(), HIDRAW_BUF_LEN, "buffer {i} is the wrong length");
        assert_eq!(buf[0], 0x00, "buffer {i}: missing report-id prefix");
        let mut report = [0u8; HIDRAW_BUF_LEN - 1];
        report.copy_from_slice(&buf[1..]);
        assert_eq!(
            buf[89],
            crc(&report),
            "buffer {i}: checksum does not cover bytes 2..=87 correctly"
        );
        assert_eq!(buf[90], 0x00, "buffer {i}: reserved byte must be zero");
    }
}

#[test]
fn device_mode_driver_encodes_to_the_golden_frame() {
    let mut transport = MockTransport::new();
    let mut clock = MockClock::new();
    {
        let mut session = Session::new(entry(BLACKWIDOW_V4_PRO), &mut transport, &mut clock);
        session
            .send(&cmd::set_device_mode(DeviceMode::Driver))
            .expect("the mock never fails");
    }

    let mut golden = [0u8; 90];
    golden[1] = 0x1F;
    golden[5] = 0x02;
    golden[7] = 0x04;
    golden[8] = 0x03;
    golden[88] = 0x05;

    let sent = transport.sent();
    assert_eq!(sent.len(), 1, "exactly one SET_REPORT");
    assert_eq!(sent[0][0], 0x00, "hidraw report id");
    assert_eq!(&sent[0][1..91], &golden[..], "the 90-byte report");
    assert_frames_well_formed(&transport);
}

#[test]
fn device_mode_uses_0x1f_not_0xff_on_blackwidow_v4_pro() {
    let mut transport = MockTransport::new();
    let mut clock = MockClock::new();
    {
        let mut session = Session::new(entry(BLACKWIDOW_V4_PRO), &mut transport, &mut clock);
        session
            .send(&cmd::set_device_mode(DeviceMode::Driver))
            .expect("the mock never fails");
    }

    assert_eq!(
        transport.sent()[0][2],
        0x1F,
        "transaction id must be 0x1F for the BlackWidow V4 Pro"
    );
    assert_ne!(
        transport.sent()[0][2],
        0xFF,
        "0xFF is the frame that drops the keyboard off the bus"
    );
}

#[test]
fn device_mode_uses_0x1f_on_both_basilisk_pids() {
    for pid in [BASILISK_WIRED, BASILISK_WIRELESS] {
        let mut transport = MockTransport::new();
        let mut clock = MockClock::new();
        {
            let mut session = Session::new(entry(pid), &mut transport, &mut clock);
            session
                .send(&cmd::set_device_mode(DeviceMode::Driver))
                .expect("the mock never fails");
        }
        assert_eq!(
            transport.sent()[0][2],
            0x1F,
            "{pid:#06x} must use transaction id 0x1F"
        );
        assert_frames_well_formed(&transport);
    }
}

#[test]
fn a_preset_transaction_id_on_the_request_is_overwritten() {
    let mut transport = MockTransport::new();
    let mut clock = MockClock::new();
    {
        let mut session = Session::new(entry(BLACKWIDOW_V4_PRO), &mut transport, &mut clock);
        let poisoned = cmd::set_device_mode(DeviceMode::Driver).with_transaction_id(0xFF);
        session.send(&poisoned).expect("the mock never fails");
    }
    assert_eq!(
        transport.sent()[0][2],
        0x1F,
        "the device table must win over whatever the caller left in byte 1"
    );
}

#[test]
fn transaction_id_override_emits_the_value_it_was_given() {
    let mut transport = MockTransport::new();
    let mut clock = MockClock::new();
    {
        let mut session = Session::new(entry(BLACKWIDOW_V4_PRO), &mut transport, &mut clock)
            .with_transaction_id_override(0xFF);
        assert_eq!(session.transaction_id(), 0xFF);
        assert_eq!(
            session.entry().transaction_id,
            0x1F,
            "the table is unchanged"
        );
        session
            .send(&cmd::set_device_mode(DeviceMode::Driver))
            .expect("the mock never fails");
    }
    assert_eq!(transport.sent()[0][2], 0xFF);
    assert_frames_well_formed(&transport);
}

#[test]
fn a_session_reports_the_entry_it_was_built_from() {
    let mut transport = MockTransport::new();
    let mut clock = MockClock::new();
    let session = Session::new(entry(BLACKWIDOW_V4_PRO), &mut transport, &mut clock);
    assert_eq!(session.entry().pid, BLACKWIDOW_V4_PRO);
    assert_eq!(session.transaction_id(), 0x1F);
}

#[test]
fn one_send_on_the_keyboard_waits_600us_exactly_once() {
    let mut transport = MockTransport::new();
    let mut clock = MockClock::new();
    {
        let mut session = Session::new(entry(BLACKWIDOW_V4_PRO), &mut transport, &mut clock);
        session
            .send(&cmd::set_device_mode(DeviceMode::Driver))
            .expect("the mock never fails");
    }
    assert_eq!(clock.sleeps(), [KBD_WAIT]);
}

#[test]
fn one_send_on_the_wireless_mouse_waits_31ms_exactly_once() {
    let mut transport = MockTransport::new();
    let mut clock = MockClock::new();
    {
        let mut session = Session::new(entry(BASILISK_WIRELESS), &mut transport, &mut clock);
        session
            .send(&cmd::set_device_mode(DeviceMode::Driver))
            .expect("the mock never fails");
    }
    assert_eq!(clock.sleeps(), [MOUSE_WAIT]);
    assert_eq!(clock.total(), MOUSE_WAIT);
}

#[test]
fn a_receiver_with_no_device_behind_it_is_recognisable() {
    let request = cmd::get_firmware_version();
    let mut transport = MockTransport::new();
    for _ in 0..MAX_ATTEMPTS {
        let mut idle = ok_response(&request, &[0x00, 0x00]);
        idle.status = Status::Timeout;
        transport.push_response(&idle);
    }
    let mut clock = MockClock::new();

    let err = {
        let mut session = Session::new(entry(BASILISK_WIRELESS), &mut transport, &mut clock);
        session
            .firmware_version()
            .expect_err("an idle receiver cannot report a firmware version")
    };

    assert!(
        err.is_receiver_idle(),
        "expected an idle receiver, got {err:?}"
    );
    assert_eq!(err.terminal_status(), Some(Status::Timeout));
    assert_eq!(transport.sent().len(), MAX_ATTEMPTS, "still five attempts");
    assert_frames_well_formed(&transport);
}

#[test]
fn other_terminal_statuses_are_not_mistaken_for_an_idle_receiver() {
    for status in [Status::Failure, Status::NotSupported] {
        let request = cmd::get_firmware_version();
        let mut transport = MockTransport::new();
        for _ in 0..MAX_ATTEMPTS {
            let mut bad = ok_response(&request, &[0x00, 0x00]);
            bad.status = status;
            transport.push_response(&bad);
        }
        let mut clock = MockClock::new();

        let err = {
            let mut session =
                Session::new(entry(BASILISK_WIRELESS), &mut transport, &mut clock);
            session.firmware_version().expect_err("status is not ok")
        };

        assert_eq!(err.terminal_status(), Some(status));
        assert!(
            !err.is_receiver_idle(),
            "{status:?} must not read as an idle receiver"
        );
    }
}

#[test]
fn a_permanently_mismatched_response_exhausts_five_attempts() {
    let request = cmd::get_firmware_version();
    let mut transport = MockTransport::new();
    for _ in 0..MAX_ATTEMPTS {
        let mut wrong = ok_response(&request, &[0x01, 0x02]);
        wrong.command_class = 0x0F;
        transport.push_response(&wrong);
    }
    let mut clock = MockClock::new();

    let err = {
        let mut session = Session::new(entry(BLACKWIDOW_V4_PRO), &mut transport, &mut clock);
        session
            .transact(&request)
            .expect_err("a class mismatch is never accepted")
    };

    assert!(
        matches!(err, HidError::RetriesExhausted { .. }),
        "expected RetriesExhausted, got {err:?}"
    );
    assert_eq!(transport.sent().len(), 5, "five SET_REPORTs");
    let retry_sleeps = clock.sleeps().iter().filter(|d| **d == RETRY_DELAY).count();
    assert_eq!(retry_sleeps, 4, "four inter-attempt sleeps of 10 ms");
    let device_waits = clock.sleeps().iter().filter(|d| **d == KBD_WAIT).count();
    assert_eq!(device_waits, 5, "one 600 us device wait per SET");
    assert_frames_well_formed(&transport);
}

#[test]
fn a_transaction_that_succeeds_on_the_third_attempt_stops_there() {
    let request = cmd::get_firmware_version();
    let mut transport = MockTransport::new();
    for _ in 0..2 {
        let mut wrong = ok_response(&request, &[]);
        wrong.command_class = 0x0F;
        transport.push_response(&wrong);
    }
    transport.push_response(&ok_response(&request, &[0x01, 0x0B]));
    transport.push_response(&ok_response(&request, &[0xEE, 0xEE]));
    let mut clock = MockClock::new();

    let response = {
        let mut session = Session::new(entry(BLACKWIDOW_V4_PRO), &mut transport, &mut clock);
        session
            .transact(&request)
            .expect("the third response is good")
    };

    assert_eq!(response.arguments[0], 0x01);
    assert_eq!(response.arguments[1], 0x0B);
    assert_eq!(transport.sent().len(), 3, "exactly three SET_REPORTs");
    assert_eq!(transport.pending_responses(), 1, "the fourth was not read");
}

#[test]
fn a_busy_status_is_accepted_on_the_first_attempt() {
    let request = cmd::get_firmware_version();
    let mut transport = MockTransport::new();
    let mut busy = ok_response(&request, &[0x02, 0x03]);
    busy.status = Status::Busy;
    transport.push_response(&busy);
    let mut clock = MockClock::new();

    let response = {
        let mut session = Session::new(entry(BLACKWIDOW_V4_PRO), &mut transport, &mut clock);
        session.transact(&request).expect("busy counts as success")
    };

    assert_eq!(response.status, Status::Busy);
    assert_eq!(transport.sent().len(), 1, "no retry");
    assert!(
        !clock.sleeps().contains(&RETRY_DELAY),
        "no inter-attempt sleep"
    );
}

#[test]
fn a_failure_status_is_retried_and_then_reported() {
    let request = cmd::get_firmware_version();
    let mut transport = MockTransport::new();
    for _ in 0..MAX_ATTEMPTS {
        let mut failed = ok_response(&request, &[]);
        failed.status = Status::Failure;
        transport.push_response(&failed);
    }
    let mut clock = MockClock::new();

    let err = {
        let mut session = Session::new(entry(BLACKWIDOW_V4_PRO), &mut transport, &mut clock);
        session
            .transact(&request)
            .expect_err("failure is not success")
    };
    assert!(matches!(
        err,
        HidError::RetriesExhausted {
            last: ProtoError::DeviceStatus(Status::Failure)
        }
    ));
}

#[test]
fn an_unsupported_poll_rate_sends_nothing() {
    let mut transport = MockTransport::new();
    let mut clock = MockClock::new();
    let err = {
        let mut session = Session::new(&NO_CAPABILITIES, &mut transport, &mut clock);
        session
            .set_poll_rate(PollRate::Hz1000)
            .expect_err("the entry has no POLL_RATE capability")
    };
    assert!(
        matches!(
            err,
            HidError::Unsupported {
                pid: 0xDEAD,
                what: "poll rate"
            }
        ),
        "got {err:?}"
    );
    assert!(
        transport.sent().is_empty(),
        "a guard that fires after the write is not a guard"
    );
    assert!(clock.sleeps().is_empty(), "and it must not have waited");
}

#[test]
fn every_capability_guard_sends_nothing() {
    let mut transport = MockTransport::new();
    let mut clock = MockClock::new();
    {
        let mut session = Session::new(&NO_CAPABILITIES, &mut transport, &mut clock);
        assert!(session.set_device_mode(DeviceMode::Driver).is_err());
        assert!(session.get_device_mode().is_err());
        assert!(session.firmware_version().is_err());
        assert!(session.serial().is_err());
        assert!(session.set_brightness(0x40).is_err());
        assert!(session.get_brightness().is_err());
        assert!(session.set_static_effect(Rgb::new(0xFF, 0, 0)).is_err());
        assert!(session.get_poll_rate().is_err());
    }
    assert!(transport.sent().is_empty());
}

#[test]
fn poll_rate_family_follows_the_device_table() {
    let mut transport = MockTransport::new();
    let mut clock = MockClock::new();
    {
        let request = cmd::set_poll_rate_v2(PollRate::Hz1000, 0x00);
        transport.push_response(&ok_response(&request, &[]));
        let mut session = Session::new(entry(BLACKWIDOW_V4_PRO), &mut transport, &mut clock);
        session.set_poll_rate(PollRate::Hz1000).expect("v2 set");
    }
    let sent = transport.sent_reports();
    assert_eq!(sent[0].command_class, 0x00);
    assert_eq!(sent[0].command_id, 0x40, "V2 family");
    assert_eq!(sent[0].data_size, 0x02);
    assert_eq!(
        sent[0].args(),
        &[0x00, 0x08],
        "argument 0x00, 1000 Hz = 0x08"
    );
    assert_frames_well_formed(&transport);

    let mut transport = MockTransport::new();
    let mut clock = MockClock::new();
    {
        let request = cmd::set_poll_rate_legacy(PollRate::Hz1000).expect("1000 Hz is legal");
        transport.push_response(&ok_response(&request, &[]));
        let mut session = Session::new(entry(BASILISK_WIRELESS), &mut transport, &mut clock);
        session.set_poll_rate(PollRate::Hz1000).expect("legacy set");
    }
    let sent = transport.sent_reports();
    assert_eq!(sent[0].command_class, 0x00);
    assert_eq!(sent[0].command_id, 0x05, "legacy family");
    assert_eq!(sent[0].data_size, 0x01);
    assert_eq!(sent[0].args(), &[0x01], "1000 Hz = 0x01 in legacy encoding");
    assert_frames_well_formed(&transport);
}

#[test]
fn a_rate_the_legacy_family_cannot_express_is_refused() {
    let mut transport = MockTransport::new();
    let mut clock = MockClock::new();
    let err = {
        let mut session = Session::new(entry(BASILISK_WIRELESS), &mut transport, &mut clock);
        session
            .set_poll_rate(PollRate::Hz8000)
            .expect_err("legacy encodes only 1000/500/125 Hz")
    };
    assert!(matches!(err, HidError::Proto(_)), "got {err:?}");
    assert!(
        transport.sent().is_empty(),
        "refusing beats silently setting 500 Hz"
    );
}

#[test]
fn poll_rate_is_read_from_the_right_argument_slot() {
    let mut transport = MockTransport::new();
    let mut clock = MockClock::new();
    let rate = {
        let request = cmd::get_poll_rate_v2();
        transport.push_response(&ok_response(&request, &[0x08, 0x04]));
        let mut session = Session::new(entry(BLACKWIDOW_V4_PRO), &mut transport, &mut clock);
        session.get_poll_rate().expect("v2 get")
    };
    assert_eq!(rate, PollRate::Hz2000, "v2 must read arguments[1]");

    let mut transport = MockTransport::new();
    let mut clock = MockClock::new();
    let rate = {
        let request = cmd::get_poll_rate_legacy();
        transport.push_response(&ok_response(&request, &[0x02, 0x08]));
        let mut session = Session::new(entry(BASILISK_WIRELESS), &mut transport, &mut clock);
        session.get_poll_rate().expect("legacy get")
    };
    assert_eq!(rate, PollRate::Hz500, "legacy must read arguments[0]");
}

#[test]
fn brightness_uses_the_devices_own_led_id() {
    for (pid, expected_led) in [(BLACKWIDOW_V4_PRO, 0x05u8), (BASILISK_WIRELESS, 0x00)] {
        let mut transport = MockTransport::new();
        let mut clock = MockClock::new();
        {
            let request = cmd::set_brightness(
                Storage::VarStore,
                if expected_led == 0x05 {
                    LedId::Backlight
                } else {
                    LedId::Zero
                },
                0x80,
            );
            transport.push_response(&ok_response(&request, &[]));
            let mut session = Session::new(entry(pid), &mut transport, &mut clock);
            session.set_brightness(0x80).expect("set brightness");
        }
        let sent = transport.sent_reports();
        assert_eq!(sent[0].command_class, 0x0F);
        assert_eq!(sent[0].command_id, 0x04);
        assert_eq!(sent[0].arguments[0], 0x01, "VARSTORE");
        assert_eq!(
            sent[0].arguments[1], expected_led,
            "{pid:#06x}: wrong LED id"
        );
        assert_eq!(sent[0].arguments[2], 0x80);
        assert_frames_well_formed(&transport);
    }
}

#[test]
fn static_effect_uses_the_devices_own_led_id() {
    for (pid, expected_led) in [(BLACKWIDOW_V4_PRO, 0x05u8), (BASILISK_WIRELESS, 0x00)] {
        let mut transport = MockTransport::new();
        let mut clock = MockClock::new();
        {
            let request = cmd::set_static_effect(
                Storage::VarStore,
                if expected_led == 0x05 {
                    LedId::Backlight
                } else {
                    LedId::Zero
                },
                Rgb::new(0xFF, 0x00, 0x00),
            );
            transport.push_response(&ok_response(&request, &[]));
            let mut session = Session::new(entry(pid), &mut transport, &mut clock);
            session
                .set_static_effect(Rgb::new(0xFF, 0x00, 0x00))
                .expect("set static effect");
        }
        let sent = transport.sent_reports();
        assert_eq!(sent[0].command_class, 0x0F);
        assert_eq!(sent[0].command_id, 0x02);
        assert_eq!(sent[0].data_size, 0x09);
        assert_eq!(
            sent[0].args(),
            &[0x01, expected_led, 0x01, 0x00, 0x00, 0x01, 0xFF, 0x00, 0x00],
            "{pid:#06x}: wrong static-effect payload"
        );
    }
}

#[test]
fn firmware_version_and_device_mode_and_serial_round_trip() {
    let mut transport = MockTransport::new();
    let mut clock = MockClock::new();

    let fw_request = cmd::get_firmware_version();
    transport.push_response(&ok_response(&fw_request, &[0x01, 0x0B]));

    let mode_request = cmd::get_device_mode();
    transport.push_response(&ok_response(&mode_request, &[0x03, 0x00]));

    let serial_request = cmd::get_serial();
    let mut serial_args = [0u8; 22];
    serial_args.copy_from_slice(b"TESTSERIAL00001\0\0\0\0\0\0\0");
    transport.push_response(&ok_response(&serial_request, &serial_args));

    let mut session = Session::new(entry(BLACKWIDOW_V4_PRO), &mut transport, &mut clock);
    assert_eq!(session.firmware_version().expect("firmware"), (0x01, 0x0B));
    assert_eq!(session.get_device_mode().expect("mode"), (0x03, 0x00));
    assert_eq!(session.serial().expect("serial"), "TESTSERIAL00001");
}

#[test]
fn brightness_reads_back_from_argument_two() {
    let mut transport = MockTransport::new();
    let mut clock = MockClock::new();
    let brightness = {
        let request = cmd::get_brightness(Storage::VarStore, LedId::Backlight);
        transport.push_response(&ok_response(&request, &[0x01, 0x05, 0x7F]));
        let mut session = Session::new(entry(BLACKWIDOW_V4_PRO), &mut transport, &mut clock);
        session.get_brightness().expect("get brightness")
    };
    assert_eq!(brightness, 0x7F);
}

#[test]
fn set_device_mode_sends_one_transaction_and_reads_it_back() {
    let request = cmd::set_device_mode(DeviceMode::Normal);
    let mut transport = MockTransport::new();
    transport.push_response(&ok_response(&request, &[0x00, 0x00]));
    let mut clock = MockClock::new();
    {
        let mut session = Session::new(entry(BLACKWIDOW_V4_PRO), &mut transport, &mut clock);
        session
            .set_device_mode(DeviceMode::Normal)
            .expect("normal mode");
    }
    let sent = transport.sent_reports();
    assert_eq!(sent.len(), 1);
    assert_eq!(sent[0].transaction_id, 0x1F);
    assert_eq!(sent[0].args(), &[0x00, 0x00]);
}

#[test]
fn a_failing_set_feature_surfaces_the_errno() {
    let mut transport = MockTransport::new();
    transport.fail_next_set(libc::EACCES);
    let mut clock = MockClock::new();
    let err = {
        let mut session = Session::new(entry(BLACKWIDOW_V4_PRO), &mut transport, &mut clock);
        session
            .send(&cmd::set_device_mode(DeviceMode::Driver))
            .expect_err("the mock was told to fail")
    };
    assert!(
        matches!(
            err,
            HidError::Io {
                op: "HIDIOCSFEATURE",
                errno: 13
            }
        ),
        "got {err:?}"
    );
    assert!(
        clock.sleeps().is_empty(),
        "a failed write must not be followed by the device wait"
    );
}

#[test]
fn a_short_feature_read_is_reported_as_such() {
    let mut transport = MockTransport::new();
    let mut clock = MockClock::new();
    let err = {
        let mut session = Session::new(entry(BLACKWIDOW_V4_PRO), &mut transport, &mut clock);
        session
            .transact_raw(&cmd::get_firmware_version())
            .expect_err("no response was queued")
    };
    assert!(matches!(err, HidError::ShortRead { got: 0 }), "got {err:?}");
}

#[test]
fn a_transport_error_mid_transaction_is_not_retried() {
    let request = cmd::get_firmware_version();
    let mut transport = MockTransport::new();
    transport.fail_next_set(libc::EIO);
    let mut clock = MockClock::new();
    let err = {
        let mut session = Session::new(entry(BLACKWIDOW_V4_PRO), &mut transport, &mut clock);
        session.transact(&request).expect_err("the write failed")
    };
    assert!(matches!(err, HidError::Io { .. }), "got {err:?}");
    assert!(
        transport.sent().is_empty(),
        "no successful write should have been recorded"
    );
}

#[test]
fn a_raw_response_buffer_is_decoded_verbatim() {
    let request = cmd::get_firmware_version();
    let mut raw = [0u8; HIDRAW_BUF_LEN];
    raw[1] = 0x02;
    raw[2] = 0x1F;
    raw[6] = 0x02;
    raw[7] = 0x00;
    raw[8] = 0x81;
    raw[9] = 0x01;
    raw[10] = 0x0B;
    let mut transport = MockTransport::new();
    transport.push_raw(raw);
    let mut clock = MockClock::new();

    let response = {
        let mut session = Session::new(entry(BLACKWIDOW_V4_PRO), &mut transport, &mut clock);
        session
            .transact_raw(&request)
            .expect("a full-length buffer")
    };
    assert_eq!(response.status, Status::Successful);
    assert_eq!(response.transaction_id, 0x1F);
    assert_eq!(response.command_id, 0x81);
    assert_eq!(response.arguments[0], 0x01);
    assert_eq!(response.arguments[1], 0x0B);
}

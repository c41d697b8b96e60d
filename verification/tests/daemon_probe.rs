use razer::daemon::info::Probe;
use razer::hid::HidError;
use razer::proto::report::Status;
use razer::proto::ProtoError;

#[test]
fn a_firmware_read_reports_its_version() {
    assert_eq!(Probe::classify(Ok((1, 4))), Probe::Firmware(1, 4));
}

#[test]
fn a_timeout_from_an_idle_receiver_is_a_state_not_a_failure() {
    let err = HidError::RetriesExhausted {
        last: ProtoError::DeviceStatus(Status::Timeout),
    };
    assert_eq!(Probe::classify(Err(err)), Probe::ReceiverIdle);
}

#[test]
fn other_terminal_statuses_still_report_as_failures() {
    for status in [Status::Failure, Status::NotSupported] {
        let err = HidError::RetriesExhausted {
            last: ProtoError::DeviceStatus(status),
        };
        assert!(
            matches!(Probe::classify(Err(err)), Probe::Failed(_)),
            "{status:?} must report as a failure"
        );
    }
}

#[test]
fn a_permission_error_is_a_failure_not_an_idle_receiver() {
    let err = HidError::Io {
        op: "HIDIOCSFEATURE",
        errno: 13,
    };
    assert!(matches!(Probe::classify(Err(err)), Probe::Failed(_)));
}

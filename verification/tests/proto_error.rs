use razer::proto::error::ProtoError;
use razer::proto::report::Status;

#[test]
fn display_is_non_empty_for_every_variant() {
    let variants = [
        ProtoError::DataSizeTooLarge { got: 81 },
        ProtoError::ResponseMismatch {
            field: "command_class",
            expected: 0x00,
            got: 0x0F,
        },
        ProtoError::DeviceStatus(Status::NotSupported),
        ProtoError::BadCrc {
            expected: 0x05,
            got: 0x00,
        },
        ProtoError::Malformed("nope"),
    ];
    for v in variants {
        assert!(!v.to_string().is_empty());
    }
}

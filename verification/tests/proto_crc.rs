use razer::proto::crc::{crc, verify_crc};
use razer::proto::report::REPORT_LEN;

#[test]
fn crc_of_all_zeros_is_zero() {
    assert_eq!(crc(&[0u8; REPORT_LEN]), 0x00);
}

#[test]
fn status_and_transaction_id_do_not_affect_crc() {
    let mut bytes = [0u8; REPORT_LEN];
    for (i, b) in bytes.iter_mut().enumerate() {
        *b = (i as u8).wrapping_mul(7);
    }
    let baseline = crc(&bytes);

    for v in 0..=u8::MAX {
        bytes[0] = v;
        assert_eq!(crc(&bytes), baseline, "status {v:#04x} changed the crc");
    }
    bytes[0] = 0;

    for v in 0..=u8::MAX {
        bytes[1] = v;
        assert_eq!(
            crc(&bytes),
            baseline,
            "transaction id {v:#04x} changed the crc"
        );
    }
}

#[test]
fn crc_and_reserved_bytes_do_not_affect_crc() {
    let mut bytes = [0u8; REPORT_LEN];
    for (i, b) in bytes.iter_mut().enumerate() {
        *b = (i as u8).wrapping_mul(3);
    }
    let baseline = crc(&bytes);

    for v in 0..=u8::MAX {
        bytes[88] = v;
        assert_eq!(crc(&bytes), baseline);
    }
    bytes[88] = 0;

    for v in 0..=u8::MAX {
        bytes[89] = v;
        assert_eq!(crc(&bytes), baseline);
    }
}

#[test]
fn every_covered_byte_changes_the_crc() {
    let bytes = [0u8; REPORT_LEN];
    let baseline = crc(&bytes);
    for i in 2..=87usize {
        let mut flipped = bytes;
        flipped[i] ^= 0x01;
        assert_ne!(
            crc(&flipped),
            baseline,
            "byte {i} is not covered by the crc"
        );
    }
}

#[test]
fn verify_crc_round_trips() {
    let mut bytes = [0u8; REPORT_LEN];
    bytes[5] = 0x02;
    bytes[7] = 0x04;
    bytes[8] = 0x03;
    bytes[88] = crc(&bytes);
    assert!(verify_crc(&bytes));
    bytes[88] ^= 0xFF;
    assert!(!verify_crc(&bytes));
}

//! Error type for the wire protocol.
use vstd::prelude::*;
use vstd::string::StringExecFns;

use crate::proto::report::Status;
use crate::text::{decimal, lower_hex, push_decimal, push_lower_hex};

verus! {

/// Something went wrong encoding, decoding or validating a report.
///
/// Every variant describes a problem with bytes, never with a transport.
#[derive(Debug, Clone, Copy, PartialEq, Eq)]
#[allow(inconsistent_fields)]
pub enum ProtoError {
    /// `data_size` exceeds the 80-byte `arguments` array.
    DataSizeTooLarge {
        /// The offending `data_size` value.
        got: u8,
    },
    /// The response did not echo back the request's routing fields.
    ResponseMismatch {
        /// Which field disagreed: `"remaining_packets"`, `"command_class"` or
        /// `"command_id"`.
        field: &'static str,
        /// The value taken from the request.
        expected: u32,
        /// The value found in the response.
        got: u32,
    },
    /// The device answered with a status that is neither `Successful` nor `Busy`.
    DeviceStatus(Status),
    /// The checksum byte at index 88 does not match the computed checksum.
    ///
    /// A response checksum is never checked on its own account; callers opt in
    /// to treating a mismatch as fatal.
    BadCrc {
        /// The checksum computed over bytes 2..=87.
        expected: u8,
        /// The checksum byte actually present at index 88.
        got: u8,
    },
    /// A parse helper was handed bytes it could not interpret.
    Malformed(&'static str),
}

/// `n` as `0x` and at least two lower case hexadecimal digits.
pub open spec fn hex_byte(n: nat) -> Seq<char> {
    "0x"@ + lower_hex(n, 2)
}

/// Appends `n` as `0x` and at least two lower case hexadecimal digits.
fn push_hex_byte(out: &mut String, n: u64)
    ensures
        final(out)@ == old(out)@ + hex_byte(n as nat),
{
    out.append("0x");
    push_lower_hex(out, n, 2);
    assert(out@ =~= old(out)@ + hex_byte(n as nat));
}

impl ProtoError {
    /// The message for the error.
    pub open spec fn message(self) -> Seq<char> {
        match self {
            ProtoError::DataSizeTooLarge { got } => "data_size "@ + decimal(got as nat)
                + " exceeds the 80-byte argument array"@,
            ProtoError::ResponseMismatch { field, expected, got } => "response "@ + field@
                + " mismatch: expected "@ + hex_byte(expected as nat) + ", got "@ + hex_byte(
                got as nat,
            ),
            ProtoError::DeviceStatus(status) => "device returned status "@ + hex_byte(
                status.byte() as nat,
            ),
            ProtoError::BadCrc { expected, got } => "bad crc: expected "@ + hex_byte(
                expected as nat,
            ) + ", got "@ + hex_byte(got as nat),
            ProtoError::Malformed(what) => "malformed report: "@ + what@,
        }
    }

    /// The message for the error.
    pub fn to_string(&self) -> (text: String)
        ensures
            text@ == self.message(),
    {
        match self {
            ProtoError::DataSizeTooLarge { got } => {
                let mut out = "data_size ".to_owned();
                push_decimal(&mut out, *got as u64);
                out.append(" exceeds the 80-byte argument array");
                out
            },
            ProtoError::ResponseMismatch { field, expected, got } => {
                let mut out = "response ".to_owned();
                out.append(field);
                out.append(" mismatch: expected ");
                push_hex_byte(&mut out, *expected as u64);
                out.append(", got ");
                push_hex_byte(&mut out, *got as u64);
                out
            },
            ProtoError::DeviceStatus(status) => {
                let mut out = "device returned status ".to_owned();
                push_hex_byte(&mut out, status.to_u8() as u64);
                out
            },
            ProtoError::BadCrc { expected, got } => {
                let mut out = "bad crc: expected ".to_owned();
                push_hex_byte(&mut out, *expected as u64);
                out.append(", got ");
                push_hex_byte(&mut out, *got as u64);
                out
            },
            ProtoError::Malformed(what) => {
                let mut out = "malformed report: ".to_owned();
                out.append(what);
                out
            },
        }
    }
}

/// A message tells what the error holds: bytes as `0x` and two hexadecimal
/// digits, and texts as they are.
pub proof fn law_messages_tell_what_the_error_holds(e: ProtoError)
    ensures
        match e {
            ProtoError::DataSizeTooLarge { got } => e.message() == "data_size "@ + decimal(
                got as nat,
            ) + " exceeds the 80-byte argument array"@,
            ProtoError::ResponseMismatch { field, expected, got } => e.message() == "response "@
                + field@ + " mismatch: expected "@ + ("0x"@ + lower_hex(expected as nat, 2))
                + ", got "@ + ("0x"@ + lower_hex(got as nat, 2)),
            ProtoError::DeviceStatus(status) => e.message() == "device returned status "@ + (
            "0x"@ + lower_hex(status.byte() as nat, 2)),
            ProtoError::BadCrc { expected, got } => e.message() == "bad crc: expected "@ + ("0x"@
                + lower_hex(expected as nat, 2)) + ", got "@ + ("0x"@ + lower_hex(got as nat, 2)),
            ProtoError::Malformed(what) => e.message() == "malformed report: "@ + what@,
        },
{
}

}

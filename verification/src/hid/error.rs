//! The error type for enumeration and transport.
use vstd::prelude::*;
use vstd::std_specs::convert::FromSpecImpl;
use vstd::string::StringExecFns;

use crate::proto::error::ProtoError;
use crate::proto::report::Status;
use crate::text::{
    decimal, lower_hex, push_decimal, push_lower_hex, push_signed_decimal, signed_decimal,
};

verus! {

/// Anything that can go wrong finding, opening or talking to a Razer device.
///
/// Protocol-level problems (a response that does not echo the request, a bad
/// status byte) arrive here wrapped in [`HidError::Proto`].
#[derive(Debug)]
#[allow(inconsistent_fields)]
pub enum HidError {
    /// No hidraw node matched the requested vid/pid/interface triple.
    DeviceNotFound {
        /// USB vendor id that was searched for.
        vid: u16,
        /// USB product id that was searched for.
        pid: u16,
        /// USB interface number that was searched for (the device table's
        /// `report_index`).
        interface: u8,
    },
    /// The pid is not present in the device table.
    UnsupportedDevice {
        /// The unknown product id.
        pid: u16,
    },
    /// The device table says this model does not support that command.
    ///
    /// Returned before any bytes are sent.
    Unsupported {
        /// The device the request was aimed at.
        pid: u16,
        /// What was asked for, e.g. `"poll rate"`.
        what: &'static str,
    },
    /// The opened node is not the device that was enumerated.
    ///
    /// hidraw minor numbers are reused, so a device that re-enumerates between
    /// enumeration and opening can leave a different device at the same
    /// `/dev/hidrawN`.
    DeviceIdentityMismatch {
        /// The node that was opened.
        path: String,
        /// The `(vid, pid)` enumeration promised.
        expected: (u16, u16),
        /// The `(vid, pid)` the kernel reports for the node actually held.
        got: (u16, u16),
    },
    /// An `open`, `read` or `ioctl` failed, carrying the raw errno.
    Io {
        /// The operation that failed, e.g. `"HIDIOCSFEATURE"`.
        op: &'static str,
        /// The raw `errno` value.
        errno: i32,
    },
    /// A feature read handed back fewer than
    /// [`crate::hid::HIDRAW_BUF_LEN`] bytes.
    ShortRead {
        /// How many bytes actually arrived.
        got: usize,
    },
    /// A sysfs attribute was missing, unreadable or not the shape expected.
    Sysfs(String),
    /// The device answered, but wrongly.
    Proto(ProtoError),
    /// All five attempts were used up.
    RetriesExhausted {
        /// The protocol error from the final attempt.
        last: ProtoError,
    },
}

/// A `vid:pid` pair in lower case hexadecimal.
pub open spec fn id_pair(vid: u16, pid: u16) -> Seq<char> {
    lower_hex(vid as nat, 4) + ":"@ + lower_hex(pid as nat, 4)
}

/// Appends a `vid:pid` pair.
fn push_id_pair(out: &mut String, vid: u16, pid: u16)
    ensures
        final(out)@ == old(out)@ + id_pair(vid, pid),
{
    push_lower_hex(out, vid as u64, 4);
    out.append(":");
    push_lower_hex(out, pid as u64, 4);
    assert(out@ =~= old(out)@ + id_pair(vid, pid));
}

impl HidError {
    /// The status byte the device ended on, when the error carries one.
    pub open spec fn status(self) -> Option<Status> {
        match self {
            HidError::RetriesExhausted { last: ProtoError::DeviceStatus(status) } => Some(status),
            HidError::Proto(ProtoError::DeviceStatus(status)) => Some(status),
            _ => None,
        }
    }

    /// The message for the error.
    pub open spec fn message(self) -> Seq<char> {
        match self {
            HidError::DeviceNotFound { vid, pid, interface } => "no hidraw node for "@ + id_pair(
                vid,
                pid,
            ) + " on USB interface "@ + decimal(interface as nat),
            HidError::UnsupportedDevice { pid } => "product id 0x"@ + lower_hex(pid as nat, 4)
                + " is not a supported device"@,
            HidError::Unsupported { pid, what } => "device 0x"@ + lower_hex(pid as nat, 4)
                + " does not support "@ + what@,
            HidError::DeviceIdentityMismatch { path, expected, got } => path@ + " is "@ + id_pair(
                got.0,
                got.1,
            ) + ", not the "@ + id_pair(expected.0, expected.1)
                + " that was enumerated (the device re-enumerated and the node number was reused)"@,
            HidError::Io { op, errno } => op@ + " failed: errno "@ + signed_decimal(errno as int),
            HidError::ShortRead { got } => "short feature read: got "@ + decimal(got as nat)
                + " bytes, expected 91"@,
            HidError::Sysfs(msg) => "sysfs: "@ + msg@,
            HidError::Proto(e) => "protocol error: "@ + e.message(),
            HidError::RetriesExhausted { last } => "all 5 attempts failed, last error: "@
                + last.message(),
        }
    }

    /// The device's own terminal status, when there was one.
    ///
    /// [`HidError::RetriesExhausted`] collapses failure, timeout and
    /// not-supported into one variant; this restores the distinction. Returns
    /// `None` for transport faults, which never carry a device status.
    #[must_use]
    pub fn terminal_status(&self) -> (status: Option<Status>)
        ensures
            status == self.status(),
    {
        match self {
            HidError::RetriesExhausted { last } => match last {
                ProtoError::DeviceStatus(status) => Some(*status),
                _ => None,
            },
            HidError::Proto(e) => match e {
                ProtoError::DeviceStatus(status) => Some(*status),
                _ => None,
            },
            _ => None,
        }
    }

    /// True when the device answered, consistently, with [`Status::Timeout`].
    ///
    /// This is what a wireless receiver says when it is plugged in but has no
    /// mouse behind it. It is a definite answer from a working receiver: report
    /// it as a device state, not as an error.
    #[must_use]
    pub fn is_receiver_idle(&self) -> (idle: bool)
        ensures
            idle == (self.status() == Some(Status::Timeout)),
    {
        match self.terminal_status() {
            Some(status) => status == Status::Timeout,
            None => false,
        }
    }

    /// The protocol error behind this one, if there is one.
    pub fn source(&self) -> (cause: Option<&ProtoError>)
        ensures
            match *self {
                HidError::Proto(e) => cause == Some(&e),
                HidError::RetriesExhausted { last } => cause == Some(&last),
                _ => cause is None,
            },
    {
        match self {
            HidError::Proto(e) => Some(e),
            HidError::RetriesExhausted { last } => Some(last),
            _ => None,
        }
    }

    /// The message for the error.
    pub fn to_string(&self) -> (text: String)
        ensures
            text@ == self.message(),
    {
        match self {
            HidError::DeviceNotFound { vid, pid, interface } => {
                let mut out = "no hidraw node for ".to_owned();
                push_id_pair(&mut out, *vid, *pid);
                out.append(" on USB interface ");
                push_decimal(&mut out, *interface as u64);
                out
            },
            HidError::UnsupportedDevice { pid } => {
                let mut out = "product id 0x".to_owned();
                push_lower_hex(&mut out, *pid as u64, 4);
                out.append(" is not a supported device");
                out
            },
            HidError::Unsupported { pid, what } => {
                let mut out = "device 0x".to_owned();
                push_lower_hex(&mut out, *pid as u64, 4);
                out.append(" does not support ");
                out.append(what);
                out
            },
            HidError::DeviceIdentityMismatch { path, expected, got } => {
                let mut out = path.clone();
                out.append(" is ");
                push_id_pair(&mut out, got.0, got.1);
                out.append(", not the ");
                push_id_pair(&mut out, expected.0, expected.1);
                out.append(
                    " that was enumerated (the device re-enumerated and the node number was reused)",
                );
                out
            },
            HidError::Io { op, errno } => {
                let mut out = (*op).to_owned();
                out.append(" failed: errno ");
                push_signed_decimal(&mut out, *errno);
                out
            },
            HidError::ShortRead { got } => {
                let mut out = "short feature read: got ".to_owned();
                push_decimal(&mut out, *got as u64);
                out.append(" bytes, expected 91");
                out
            },
            HidError::Sysfs(msg) => {
                let mut out = "sysfs: ".to_owned();
                out.append(msg.as_str());
                out
            },
            HidError::Proto(e) => {
                let mut out = "protocol error: ".to_owned();
                let inner = e.to_string();
                out.append(inner.as_str());
                out
            },
            HidError::RetriesExhausted { last } => {
                let mut out = "all 5 attempts failed, last error: ".to_owned();
                let inner = last.to_string();
                out.append(inner.as_str());
                out
            },
        }
    }
}

impl FromSpecImpl<ProtoError> for HidError {
    open spec fn obeys_from_spec() -> bool {
        true
    }

    open spec fn from_spec(e: ProtoError) -> Self {
        HidError::Proto(e)
    }
}

impl From<ProtoError> for HidError {
    fn from(e: ProtoError) -> (wrapped: Self) {
        HidError::Proto(e)
    }
}

/// A message tells what the error holds: the ids as four hexadecimal digits
/// each, numbers in decimal, texts as they are, and the message of a protocol
/// error whole.
pub proof fn law_messages_tell_what_the_error_holds(e: HidError)
    ensures
        match e {
            HidError::DeviceNotFound { vid, pid, interface } => e.message()
                == "no hidraw node for "@ + (lower_hex(vid as nat, 4) + ":"@ + lower_hex(
                pid as nat,
                4,
            )) + " on USB interface "@ + decimal(interface as nat),
            HidError::UnsupportedDevice { pid } => e.message() == "product id 0x"@ + lower_hex(
                pid as nat,
                4,
            ) + " is not a supported device"@,
            HidError::Unsupported { pid, what } => e.message() == "device 0x"@ + lower_hex(
                pid as nat,
                4,
            ) + " does not support "@ + what@,
            HidError::DeviceIdentityMismatch { path, expected, got } => e.message() == path@
                + " is "@ + (lower_hex(got.0 as nat, 4) + ":"@ + lower_hex(got.1 as nat, 4))
                + ", not the "@ + (lower_hex(expected.0 as nat, 4) + ":"@ + lower_hex(
                expected.1 as nat,
                4,
            ))
                + " that was enumerated (the device re-enumerated and the node number was reused)"@,
            HidError::Io { op, errno } => e.message() == op@ + " failed: errno "@ + signed_decimal(
                errno as int,
            ),
            HidError::ShortRead { got } => e.message() == "short feature read: got "@ + decimal(
                got as nat,
            ) + " bytes, expected 91"@,
            HidError::Sysfs(msg) => e.message() == "sysfs: "@ + msg@,
            HidError::Proto(inner) => e.message() == "protocol error: "@ + inner.message(),
            HidError::RetriesExhausted { last } => e.message()
                == "all 5 attempts failed, last error: "@ + last.message(),
        },
{
}

/// An error carries a device status exactly where the device answered with one
/// and that was the end, at once or after the last attempt.
pub proof fn law_which_errors_carry_a_status(e: HidError, status: Status)
    ensures
        e.status() == Some(status) <==> e == HidError::Proto(ProtoError::DeviceStatus(status))
            || e == (HidError::RetriesExhausted { last: ProtoError::DeviceStatus(status) }),
        !(e is Proto) && !(e is RetriesExhausted) ==> e.status() is None,
{
}

}

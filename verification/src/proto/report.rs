//! The 90-byte report and its supporting value types.
//!
//! | Offset | Size | Field |
//! |--------|------|-------|
//! | 0      | 1    | `status` |
//! | 1      | 1    | `transaction_id` |
//! | 2..=3  | 2    | `remaining_packets` (big endian) |
//! | 4      | 1    | `protocol_type` (always 0) |
//! | 5      | 1    | `data_size` (must be <= 80) |
//! | 6      | 1    | `command_class` |
//! | 7      | 1    | `command_id` |
//! | 8..=87 | 80   | `arguments` |
//! | 88     | 1    | `crc` |
//! | 89     | 1    | `reserved` (always 0) |
use vstd::prelude::*;
use vstd::slice::slice_subrange;

use crate::proto::crc::{checksum, checksum_valid, crc};

verus! {

/// Total size of an encoded report, in bytes.
pub const REPORT_LEN: usize = 90;

/// Size of the `arguments` array.
pub const ARGS_LEN: usize = 80;

/// Report status byte.
///
/// The host always sends `New`; the rest are device responses.
#[derive(Debug, Clone, Copy, PartialEq, Eq, Structural)]
pub enum Status {
    /// 0x00, a new command from host to device.
    New,
    /// 0x01. Some commands answer busy and have succeeded all the same.
    Busy,
    /// 0x02.
    Successful,
    /// 0x03.
    Failure,
    /// 0x04, no response.
    Timeout,
    /// 0x05.
    NotSupported,
    /// Anything else the device might invent.
    Unknown(u8),
}

impl Status {
    /// The status that a byte stands for.
    pub open spec fn of_byte(v: u8) -> Status {
        if v == 0x00 {
            Status::New
        } else if v == 0x01 {
            Status::Busy
        } else if v == 0x02 {
            Status::Successful
        } else if v == 0x03 {
            Status::Failure
        } else if v == 0x04 {
            Status::Timeout
        } else if v == 0x05 {
            Status::NotSupported
        } else {
            Status::Unknown(v)
        }
    }

    /// The byte that stands for the status.
    pub open spec fn byte(self) -> u8 {
        match self {
            Status::New => 0x00,
            Status::Busy => 0x01,
            Status::Successful => 0x02,
            Status::Failure => 0x03,
            Status::Timeout => 0x04,
            Status::NotSupported => 0x05,
            Status::Unknown(other) => other,
        }
    }

    /// Decode a status byte. Never fails: unrecognised values become
    /// [`Status::Unknown`].
    pub fn from_u8(v: u8) -> (status: Self)
        ensures
            status == Status::of_byte(v),
    {
        match v {
            0x00 => Status::New,
            0x01 => Status::Busy,
            0x02 => Status::Successful,
            0x03 => Status::Failure,
            0x04 => Status::Timeout,
            0x05 => Status::NotSupported,
            other => Status::Unknown(other),
        }
    }

    /// Encode back to the wire byte.
    pub fn to_u8(self) -> (v: u8)
        ensures
            v == self.byte(),
    {
        match self {
            Status::New => 0x00,
            Status::Busy => 0x01,
            Status::Successful => 0x02,
            Status::Failure => 0x03,
            Status::Timeout => 0x04,
            Status::NotSupported => 0x05,
            Status::Unknown(other) => other,
        }
    }

    /// True for [`Status::Successful`] and [`Status::Busy`] only.
    pub fn is_ok(self) -> (ok: bool)
        ensures
            ok == (self == Status::Successful || self == Status::Busy),
    {
        match self {
            Status::Successful => true,
            Status::Busy => true,
            _ => false,
        }
    }
}

/// Every byte survives decoding to a status and encoding back.
pub proof fn law_status_byte_round_trip(v: u8)
    ensures
        Status::of_byte(v).byte() == v,
{
}

/// A 24-bit colour.
#[derive(Debug, Clone, Copy, PartialEq, Eq, Structural)]
pub struct Rgb {
    /// Red channel.
    pub r: u8,
    /// Green channel.
    pub g: u8,
    /// Blue channel.
    pub b: u8,
}

impl Rgb {
    /// Build a colour from its three channels.
    pub fn new(r: u8, g: u8, b: u8) -> (rgb: Self)
        ensures
            rgb == (Rgb { r, g, b }),
    {
        Rgb { r, g, b }
    }
}

/// Whether the device should persist the setting.
#[derive(Debug, Clone, Copy, PartialEq, Eq, Structural)]
pub enum Storage {
    /// 0x00: apply now, do not persist.
    NoStore,
    /// 0x01: persist to the device's variable store.
    VarStore,
}

impl Storage {
    /// The byte that stands for the storage class.
    pub open spec fn byte(self) -> u8 {
        match self {
            Storage::NoStore => 0x00,
            Storage::VarStore => 0x01,
        }
    }

    /// Encode to the wire byte.
    pub fn to_u8(self) -> (v: u8)
        ensures
            v == self.byte(),
    {
        match self {
            Storage::NoStore => 0x00,
            Storage::VarStore => 0x01,
        }
    }
}

/// LED identifiers.
///
/// Only the ids used by the devices in the table are modelled.
#[derive(Debug, Clone, Copy, PartialEq, Eq, Structural)]
pub enum LedId {
    /// 0x00, the Basilisk V3 Pro's default LED.
    Zero,
    /// 0x01.
    ScrollWheel,
    /// 0x04.
    Logo,
    /// 0x05, the BlackWidow V4 Pro's default LED.
    Backlight,
}

impl LedId {
    /// The byte that stands for the LED.
    pub open spec fn byte(self) -> u8 {
        match self {
            LedId::Zero => 0x00,
            LedId::ScrollWheel => 0x01,
            LedId::Logo => 0x04,
            LedId::Backlight => 0x05,
        }
    }

    /// Encode to the wire byte.
    pub fn to_u8(self) -> (v: u8)
        ensures
            v == self.byte(),
    {
        match self {
            LedId::Zero => 0x00,
            LedId::ScrollWheel => 0x01,
            LedId::Logo => 0x04,
            LedId::Backlight => 0x05,
        }
    }
}

/// Operating mode.
///
/// Mode 0x02 is a factory test mode that must not be set, so it is not
/// representable here.
#[derive(Debug, Clone, Copy, PartialEq, Eq, Structural)]
pub enum DeviceMode {
    /// 0x00, normal mode: the device generates its own keystrokes.
    Normal,
    /// 0x03, driver mode: the host takes over.
    Driver,
}

impl DeviceMode {
    /// The byte that stands for the mode.
    pub open spec fn byte(self) -> u8 {
        match self {
            DeviceMode::Normal => 0x00,
            DeviceMode::Driver => 0x03,
        }
    }

    /// The mode that a byte stands for, if any.
    pub open spec fn of_byte(v: u8) -> Option<DeviceMode> {
        if v == 0x00 {
            Some(DeviceMode::Normal)
        } else if v == 0x03 {
            Some(DeviceMode::Driver)
        } else {
            None
        }
    }

    /// Decode a mode byte. Returns `None` for anything else, including the
    /// blocked `0x02`.
    pub fn from_u8(v: u8) -> (mode: Option<Self>)
        ensures
            mode == DeviceMode::of_byte(v),
    {
        match v {
            0x00 => Some(DeviceMode::Normal),
            0x03 => Some(DeviceMode::Driver),
            _ => None,
        }
    }

    /// Encode back to the wire byte.
    pub fn to_u8(self) -> (v: u8)
        ensures
            v == self.byte(),
    {
        match self {
            DeviceMode::Normal => 0x00,
            DeviceMode::Driver => 0x03,
        }
    }
}

/// A mode survives encoding and decoding, and a byte decodes to a mode only if
/// that mode encodes to it.
pub proof fn law_device_mode_round_trip(mode: DeviceMode, v: u8)
    ensures
        DeviceMode::of_byte(mode.byte()) == Some(mode),
        DeviceMode::of_byte(v) == Some(mode) <==> v == mode.byte(),
        DeviceMode::of_byte(0x02) is None,
{
}

/// A polling rate, in hertz.
///
/// Two wire encodings exist and they are not interchangeable: see
/// [`PollRate::legacy_code`] and [`PollRate::v2_code`].
#[derive(Debug, Clone, Copy, PartialEq, Eq, Structural)]
pub enum PollRate {
    /// 125 Hz.
    Hz125,
    /// 250 Hz.
    Hz250,
    /// 500 Hz.
    Hz500,
    /// 1000 Hz.
    Hz1000,
    /// 2000 Hz.
    Hz2000,
    /// 4000 Hz.
    Hz4000,
    /// 8000 Hz.
    Hz8000,
}

impl PollRate {
    /// The rate in hertz.
    pub open spec fn rate(self) -> u16 {
        match self {
            PollRate::Hz125 => 125,
            PollRate::Hz250 => 250,
            PollRate::Hz500 => 500,
            PollRate::Hz1000 => 1000,
            PollRate::Hz2000 => 2000,
            PollRate::Hz4000 => 4000,
            PollRate::Hz8000 => 8000,
        }
    }

    /// The legacy code, for the three rates that have one.
    pub open spec fn legacy(self) -> Option<u8> {
        match self {
            PollRate::Hz1000 => Some(0x01u8),
            PollRate::Hz500 => Some(0x02u8),
            PollRate::Hz125 => Some(0x08u8),
            _ => None,
        }
    }

    /// The v2 code.
    pub open spec fn v2(self) -> u8 {
        match self {
            PollRate::Hz8000 => 0x01,
            PollRate::Hz4000 => 0x02,
            PollRate::Hz2000 => 0x04,
            PollRate::Hz1000 => 0x08,
            PollRate::Hz500 => 0x10,
            PollRate::Hz250 => 0x20,
            PollRate::Hz125 => 0x40,
        }
    }

    /// The rate of so many hertz, if there is one.
    pub open spec fn of_rate(hz: u16) -> Option<PollRate> {
        if hz == 125 {
            Some(PollRate::Hz125)
        } else if hz == 250 {
            Some(PollRate::Hz250)
        } else if hz == 500 {
            Some(PollRate::Hz500)
        } else if hz == 1000 {
            Some(PollRate::Hz1000)
        } else if hz == 2000 {
            Some(PollRate::Hz2000)
        } else if hz == 4000 {
            Some(PollRate::Hz4000)
        } else if hz == 8000 {
            Some(PollRate::Hz8000)
        } else {
            None
        }
    }

    /// The rate that a legacy code stands for, if there is one.
    pub open spec fn of_legacy(code: u8) -> Option<PollRate> {
        if code == 0x01 {
            Some(PollRate::Hz1000)
        } else if code == 0x02 {
            Some(PollRate::Hz500)
        } else if code == 0x08 {
            Some(PollRate::Hz125)
        } else {
            None
        }
    }

    /// The rate that a v2 code stands for, if there is one.
    pub open spec fn of_v2(code: u8) -> Option<PollRate> {
        if code == 0x01 {
            Some(PollRate::Hz8000)
        } else if code == 0x02 {
            Some(PollRate::Hz4000)
        } else if code == 0x04 {
            Some(PollRate::Hz2000)
        } else if code == 0x08 {
            Some(PollRate::Hz1000)
        } else if code == 0x10 {
            Some(PollRate::Hz500)
        } else if code == 0x20 {
            Some(PollRate::Hz250)
        } else if code == 0x40 {
            Some(PollRate::Hz125)
        } else {
            None
        }
    }

    /// The rate in hertz.
    pub fn hz(self) -> (hz: u16)
        ensures
            hz == self.rate(),
    {
        match self {
            PollRate::Hz125 => 125,
            PollRate::Hz250 => 250,
            PollRate::Hz500 => 500,
            PollRate::Hz1000 => 1000,
            PollRate::Hz2000 => 2000,
            PollRate::Hz4000 => 4000,
            PollRate::Hz8000 => 8000,
        }
    }

    /// Build from a rate in hertz, or `None` if no such rate is defined.
    pub fn from_hz(hz: u16) -> (rate: Option<Self>)
        ensures
            rate == PollRate::of_rate(hz),
    {
        match hz {
            125 => Some(PollRate::Hz125),
            250 => Some(PollRate::Hz250),
            500 => Some(PollRate::Hz500),
            1000 => Some(PollRate::Hz1000),
            2000 => Some(PollRate::Hz2000),
            4000 => Some(PollRate::Hz4000),
            8000 => Some(PollRate::Hz8000),
            _ => None,
        }
    }

    /// Legacy encoding: 1000 -> 0x01, 500 -> 0x02, 125 -> 0x08.
    ///
    /// Returns `None` for a rate the legacy command cannot express, rather than
    /// substituting one the caller did not ask for.
    pub fn legacy_code(self) -> (code: Option<u8>)
        ensures
            code == self.legacy(),
    {
        match self {
            PollRate::Hz1000 => Some(0x01),
            PollRate::Hz500 => Some(0x02),
            PollRate::Hz125 => Some(0x08),
            _ => None,
        }
    }

    /// Decode a legacy code byte.
    pub fn from_legacy_code(code: u8) -> (rate: Option<Self>)
        ensures
            rate == PollRate::of_legacy(code),
    {
        match code {
            0x01 => Some(PollRate::Hz1000),
            0x02 => Some(PollRate::Hz500),
            0x08 => Some(PollRate::Hz125),
            _ => None,
        }
    }

    /// v2 encoding: 8000 -> 0x01, 4000 -> 0x02, 2000 -> 0x04, 1000 -> 0x08,
    /// 500 -> 0x10, 250 -> 0x20, 125 -> 0x40.
    ///
    /// Total: every rate is expressible.
    pub fn v2_code(self) -> (code: u8)
        ensures
            code == self.v2(),
    {
        match self {
            PollRate::Hz8000 => 0x01,
            PollRate::Hz4000 => 0x02,
            PollRate::Hz2000 => 0x04,
            PollRate::Hz1000 => 0x08,
            PollRate::Hz500 => 0x10,
            PollRate::Hz250 => 0x20,
            PollRate::Hz125 => 0x40,
        }
    }

    /// Decode a v2 code byte.
    pub fn from_v2_code(code: u8) -> (rate: Option<Self>)
        ensures
            rate == PollRate::of_v2(code),
    {
        match code {
            0x01 => Some(PollRate::Hz8000),
            0x02 => Some(PollRate::Hz4000),
            0x04 => Some(PollRate::Hz2000),
            0x08 => Some(PollRate::Hz1000),
            0x10 => Some(PollRate::Hz500),
            0x20 => Some(PollRate::Hz250),
            0x40 => Some(PollRate::Hz125),
            _ => None,
        }
    }
}

/// No two rates share an encoding, in either family, and where both families
/// express a rate they do so by different codes: a v2 code divides 8000 Hz, a
/// legacy code 1000 Hz.
pub proof fn law_poll_rate_codes_are_distinct(a: PollRate, b: PollRate)
    ensures
        a.rate() == b.rate() ==> a == b,
        a.v2() == b.v2() ==> a == b,
        a.legacy() is Some && a.legacy() == b.legacy() ==> a == b,
        a.legacy() != Some(a.v2()),
        a.v2() * a.rate() == 8000,
        a.legacy() is Some ==> a.legacy()->0 * a.rate() == 1000,
{
}

/// Encoding and decoding a rate undo each other, in hertz and in either family:
/// a number decodes to a rate if and only if that rate encodes to it.
pub proof fn law_poll_rate_round_trip(rate: PollRate, hz: u16, code: u8)
    ensures
        PollRate::of_rate(hz) == Some(rate) <==> rate.rate() == hz,
        PollRate::of_v2(code) == Some(rate) <==> rate.v2() == code,
        PollRate::of_legacy(code) == Some(rate) <==> rate.legacy() == Some(code),
{
}

/// A Razer report, the single frame both directions of the protocol use.
///
/// `remaining_packets` is held in native byte order and encoded big endian by
/// [`RazerReport::to_bytes`].
#[derive(Debug, Clone, Copy, PartialEq, Eq)]
pub struct RazerReport {
    /// Byte 0. The host always sends [`Status::New`].
    pub status: Status,
    /// Byte 1. Stamped from the device table when the report is sent.
    pub transaction_id: u8,
    /// Bytes 2..=3, big endian on the wire. Always 0 for every command here.
    pub remaining_packets: u16,
    /// Byte 4. Always 0.
    pub protocol_type: u8,
    /// Byte 5. Length of the meaningful payload in `arguments`; at most 80.
    pub data_size: u8,
    /// Byte 6.
    pub command_class: u8,
    /// Byte 7. Bit 7 set means device to host (a "get").
    pub command_id: u8,
    /// Bytes 8..=87. Zero-filled beyond `data_size`.
    pub arguments: [u8; ARGS_LEN],
    /// Byte 88. Ignored by [`RazerReport::to_bytes`], which recomputes it.
    pub crc: u8,
    /// Byte 89. Always 0.
    pub reserved: u8,
}

impl RazerReport {
    /// Bytes 0 through 87 of the wire form.
    pub open spec fn body(&self) -> Seq<u8> {
        seq![
            self.status.byte(),
            self.transaction_id,
            (self.remaining_packets / 256) as u8,
            (self.remaining_packets % 256) as u8,
            self.protocol_type,
            self.data_size,
            self.command_class,
            self.command_id,
        ] + self.arguments@
    }

    /// The wire form: the body, its checksum, and the reserved byte.
    pub open spec fn frame(&self) -> Seq<u8> {
        self.body().push(checksum(self.body())).push(self.reserved)
    }

    /// Whether the report is the field-for-field decoding of `frame`.
    pub open spec fn decodes(&self, frame: Seq<u8>) -> bool {
        &&& self.status == Status::of_byte(frame[0])
        &&& self.transaction_id == frame[1]
        &&& self.remaining_packets == frame[2] * 256 + frame[3]
        &&& self.protocol_type == frame[4]
        &&& self.data_size == frame[5]
        &&& self.command_class == frame[6]
        &&& self.command_id == frame[7]
        &&& self.arguments@ == frame.subrange(8, 88)
        &&& self.crc == frame[88]
        &&& self.reserved == frame[89]
    }

    /// A report as the host builds it: status `New`, every field that is not
    /// given zero, and `args` at the front of the argument array.
    pub open spec fn is_command(
        &self,
        command_class: u8,
        command_id: u8,
        data_size: u8,
        args: Seq<u8>,
    ) -> bool {
        &&& self.status == Status::New
        &&& self.transaction_id == 0
        &&& self.remaining_packets == 0
        &&& self.protocol_type == 0
        &&& self.data_size == data_size
        &&& self.command_class == command_class
        &&& self.command_id == command_id
        &&& self.arguments@ == args + Seq::new((ARGS_LEN - args.len()) as nat, |i: int| 0u8)
        &&& self.crc == 0
        &&& self.reserved == 0
    }

    /// A zeroed report with the given class, id and payload length.
    ///
    /// The transaction id is 0x00: the session stamps the real one.
    pub fn new(command_class: u8, command_id: u8, data_size: u8) -> (report: Self)
        ensures
            report.is_command(command_class, command_id, data_size, Seq::empty()),
    {
        let report = RazerReport {
            status: Status::New,
            transaction_id: 0x00,
            remaining_packets: 0,
            protocol_type: 0x00,
            data_size,
            command_class,
            command_id,
            arguments: [0u8; ARGS_LEN],
            crc: 0x00,
            reserved: 0x00,
        };
        assert(report.arguments@ =~= Seq::<u8>::empty() + Seq::new(80, |i: int| 0u8));
        report
    }

    /// Stamp the transaction id, consuming and returning `self`.
    #[must_use]
    pub fn with_transaction_id(self, tid: u8) -> (report: Self)
        ensures
            report == (RazerReport { transaction_id: tid, ..self }),
    {
        let mut report = self;
        report.transaction_id = tid;
        report
    }

    /// Copy `args` into the front of the argument array.
    ///
    /// Does not touch `data_size`: the two are separate facts of the protocol.
    #[must_use]
    pub fn with_args(self, args: &[u8]) -> (report: Self)
        requires
            args@.len() <= ARGS_LEN,
        ensures
            report == (RazerReport { arguments: report.arguments, ..self }),
            report.arguments@ == args@ + self.arguments@.skip(args@.len() as int),
    {
        let mut report = self;
        let mut i: usize = 0;
        while i < args.len()
            invariant
                0 <= i <= args@.len() <= ARGS_LEN,
                report == (RazerReport { arguments: report.arguments, ..self }),
                report.arguments@ =~= args@.take(i as int) + self.arguments@.skip(i as int),
            decreases args@.len() - i,
        {
            report.arguments[i] = args[i];
            i = i + 1;
        }
        assert(args@.take(i as int) =~= args@);
        report
    }

    /// Encode to the 90-byte wire form, stamping byte 88 with the computed
    /// checksum. The value of `self.crc` is ignored.
    pub fn to_bytes(&self) -> (bytes: [u8; REPORT_LEN])
        ensures
            bytes@ == self.frame(),
            checksum_valid(bytes@),
    {
        let mut out = [0u8; REPORT_LEN];
        out[0] = self.status.to_u8();
        out[1] = self.transaction_id;
        out[2] = (self.remaining_packets / 256) as u8;
        out[3] = (self.remaining_packets % 256) as u8;
        out[4] = self.protocol_type;
        out[5] = self.data_size;
        out[6] = self.command_class;
        out[7] = self.command_id;
        let mut i: usize = 0;
        while i < ARGS_LEN
            invariant
                0 <= i <= ARGS_LEN,
                out@.take(8) =~= self.body().take(8),
                out@.subrange(8, 8 + i) =~= self.arguments@.take(i as int),
            decreases ARGS_LEN - i,
        {
            out[8 + i] = self.arguments[i];
            i = i + 1;
        }
        out[89] = self.reserved;
        proof {
            assert forall|k: int| 0 <= k < 88 implies out@[k] == self.body()[k] by {
                if k < 8 {
                    assert(out@.take(8)[k] == self.body().take(8)[k]);
                } else {
                    assert(out@.subrange(8, 88)[k - 8] == self.arguments@.take(80)[k - 8]);
                }
            }
            assert(out@.subrange(2, 88) =~= self.body().subrange(2, 88));
        }
        // Last, because the checksum covers bytes 2..=87, all of which are now set.
        let sum: u8 = crc(&out);
        out[88] = sum;
        assert(out@ =~= self.frame());
        assert(out@.subrange(2, 88) =~= self.body().subrange(2, 88));
        out
    }

    /// Field-for-field decode. Performs no validation.
    ///
    /// Use [`crate::proto::parse::check_response`] and
    /// [`crate::proto::verify_crc`] for that.
    pub fn from_bytes(bytes: &[u8; REPORT_LEN]) -> (report: Self)
        ensures
            report.decodes(bytes@),
    {
        let mut arguments = [0u8; ARGS_LEN];
        let mut i: usize = 0;
        while i < ARGS_LEN
            invariant
                0 <= i <= ARGS_LEN,
                arguments@.take(i as int) =~= bytes@.subrange(8, 8 + i),
            decreases ARGS_LEN - i,
        {
            arguments[i] = bytes[8 + i];
            i = i + 1;
        }
        assert(arguments@.take(80) =~= arguments@);
        RazerReport {
            status: Status::from_u8(bytes[0]),
            transaction_id: bytes[1],
            remaining_packets: bytes[2] as u16 * 256 + bytes[3] as u16,
            protocol_type: bytes[4],
            data_size: bytes[5],
            command_class: bytes[6],
            command_id: bytes[7],
            arguments,
            crc: bytes[88],
            reserved: bytes[89],
        }
    }

    /// The meaningful part of the argument array, clamped to [`ARGS_LEN`].
    pub fn args(&self) -> (args: &[u8])
        ensures
            args@ == self.arguments@.take(
                if self.data_size < ARGS_LEN {
                    self.data_size as int
                } else {
                    ARGS_LEN as int
                },
            ),
    {
        let n: usize = if (self.data_size as usize) < ARGS_LEN {
            self.data_size as usize
        } else {
            ARGS_LEN
        };
        let args = slice_subrange(self.arguments.as_slice(), 0, n);
        assert(args@ =~= self.arguments@.take(n as int));
        args
    }

    /// True if this is a device-to-host command: bit 7 of `command_id`.
    pub fn is_get(&self) -> (get: bool)
        ensures
            get == (self.command_id >= 0x80),
    {
        let id: u8 = self.command_id;
        assert((id & 0x80 != 0) == (id >= 0x80)) by (bit_vector);
        self.command_id & 0x80 != 0
    }
}

/// A frame has exactly one decoding.
pub proof fn lemma_decoding_is_unique(a: RazerReport, b: RazerReport, frame: Seq<u8>)
    requires
        a.decodes(frame),
        b.decodes(frame),
    ensures
        a == b,
{
    assert(a.arguments =~= b.arguments);
}

/// Decoding an encoded report gives the report back, except that its checksum
/// field is now the computed one. Status bytes that have a name of their own
/// come back under that name.
pub proof fn law_decode_undoes_encode(report: RazerReport, back: RazerReport)
    requires
        back.decodes(report.frame()),
    ensures
        back.frame() == report.frame(),
        back.crc == checksum(report.frame()),
        report.status == Status::of_byte(report.status.byte()) ==> back == (RazerReport {
            crc: back.crc,
            ..report
        }),
{
    let frame = report.frame();
    assert(report.arguments@ =~= frame.subrange(8, 88));
    assert(back.arguments =~= report.arguments);
    assert(frame.subrange(2, 88) =~= report.body().subrange(2, 88));
    let n = report.remaining_packets;
    assert((n / 256) * 256 + n % 256 == n);
    assert(back.body() =~= report.body());
}

/// Encoding a decoded frame gives the frame back, except that its checksum byte
/// is now the computed one: a frame with a valid checksum comes back byte for
/// byte.
pub proof fn law_encode_undoes_decode(frame: Seq<u8>, report: RazerReport)
    requires
        frame.len() == REPORT_LEN,
        report.decodes(frame),
    ensures
        report.frame() == frame.update(88, checksum(frame)),
        checksum_valid(frame) ==> report.frame() == frame,
{
    law_status_byte_round_trip(frame[0]);
    let n = report.remaining_packets;
    assert(n / 256 == frame[2]);
    assert(n % 256 == frame[3]);
    assert(report.body() =~= frame.take(88));
    assert(report.body().subrange(2, 88) =~= frame.subrange(2, 88));
    assert(report.frame() =~= frame.update(88, checksum(frame)));
    if checksum_valid(frame) {
        assert(frame.update(88, checksum(frame)) =~= frame);
    }
}

/// Every encoded report has a valid checksum, and stamping another transaction
/// id changes byte 1 of the frame and nothing else, the checksum included.
pub proof fn law_transaction_id_only_touches_byte_one(report: RazerReport, tid: u8)
    ensures
        report.frame().len() == REPORT_LEN,
        checksum_valid(report.frame()),
        (RazerReport { transaction_id: tid, ..report }).frame() == report.frame().update(1, tid),
{
    let other = RazerReport { transaction_id: tid, ..report };
    assert(other.body().subrange(2, 88) =~= report.body().subrange(2, 88));
    assert(report.frame().subrange(2, 88) =~= report.body().subrange(2, 88));
    assert(other.frame() =~= report.frame().update(1, tid));
}

/// Every field stands at its place in the frame, and nothing else does: byte for
/// byte, with `remaining_packets` big endian and the checksum over bytes 2
/// through 87.
pub proof fn law_frame_layout(report: RazerReport, i: int)
    ensures
        report.frame().len() == 90,
        report.frame()[0] == report.status.byte(),
        report.frame()[1] == report.transaction_id,
        report.frame()[2] * 256 + report.frame()[3] == report.remaining_packets,
        report.frame()[4] == report.protocol_type,
        report.frame()[5] == report.data_size,
        report.frame()[6] == report.command_class,
        report.frame()[7] == report.command_id,
        0 <= i < 80 ==> report.frame()[8 + i] == report.arguments@[i],
        report.frame()[88] == checksum(report.frame()),
        report.frame()[89] == report.reserved,
{
    let n = report.remaining_packets;
    assert((n / 256) * 256 + n % 256 == n);
    assert(report.frame().subrange(2, 88) =~= report.body().subrange(2, 88));
}

/// A decoded report holds what stands at each field's place in the frame.
pub proof fn law_decoding_layout(report: RazerReport, frame: Seq<u8>, i: int)
    requires
        frame.len() == 90,
        report.decodes(frame),
    ensures
        report.status.byte() == frame[0],
        report.transaction_id == frame[1],
        report.remaining_packets == frame[2] * 256 + frame[3],
        report.protocol_type == frame[4],
        report.data_size == frame[5],
        report.command_class == frame[6],
        report.command_id == frame[7],
        0 <= i < 80 ==> report.arguments@[i] == frame[8 + i],
        report.crc == frame[88],
        report.reserved == frame[89],
{
    law_status_byte_round_trip(frame[0]);
}

/// A command's frame is zero but for its size, class, id, arguments and
/// checksum.
pub proof fn law_command_frames(
    report: RazerReport,
    command_class: u8,
    command_id: u8,
    data_size: u8,
    args: Seq<u8>,
    i: int,
)
    requires
        report.is_command(command_class, command_id, data_size, args),
        args.len() <= 80,
        0 <= i < 88,
    ensures
        report.frame()[i] == (if i == 5 {
            data_size
        } else if i == 6 {
            command_class
        } else if i == 7 {
            command_id
        } else if 8 <= i < 8 + args.len() {
            args[i - 8]
        } else {
            0
        }),
        report.frame()[89] == 0,
{
    if i >= 8 {
        assert(report.frame()[i] == report.arguments@[i - 8]);
    }
}

}

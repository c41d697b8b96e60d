//! The transport contract, and what the kernel says of a node.
use vstd::prelude::*;

use crate::hid::error::HidError;

verus! {

/// One report-id byte plus the 90-byte report.
///
/// Report id 0 is prefixed even though these devices use no report ids: that is
/// the `hidraw` convention.
pub const HIDRAW_BUF_LEN: usize = 91;

/// `HIDIOCSFEATURE(91)`: `(3 << 30) | (91 << 16) | (0x48 << 8) | 0x06`.
pub const HIDIOCSFEATURE_91: u64 = 0xC05B_4806;

/// `HIDIOCGFEATURE(91)`: `(3 << 30) | (91 << 16) | (0x48 << 8) | 0x07`.
pub const HIDIOCGFEATURE_91: u64 = 0xC05B_4807;

/// `HIDIOCGRAWINFO`: `(2 << 30) | (8 << 16) | (0x48 << 8) | 0x03`.
///
/// Reads kernel-cached descriptor data; no packet reaches the device.
pub const HIDIOCGRAWINFO: u64 = 0x8008_4803;

/// How the kernel numbers a hidraw request: direction, size, the type `'H'`, and
/// the number of the request.
pub open spec fn request_number(direction: u64, number: u64, size: u64) -> u64 {
    (direction << 30) | (size << 16) | (0x48u64 << 8) | number
}

/// The three request numbers are the kernel's: both feature requests carry a
/// whole buffer in both directions, and the identity request reads eight bytes.
pub proof fn law_request_numbers_are_the_kernels()
    ensures
        HIDIOCSFEATURE_91 == request_number(3, 0x06, HIDRAW_BUF_LEN as u64),
        HIDIOCGFEATURE_91 == request_number(3, 0x07, HIDRAW_BUF_LEN as u64),
        HIDIOCGRAWINFO == request_number(2, 0x03, 8),
{
    assert((3u64 << 30) | (91u64 << 16) | (0x48u64 << 8) | 0x06u64 == 0xC05B_4806u64)
        by (bit_vector);
    assert((3u64 << 30) | (91u64 << 16) | (0x48u64 << 8) | 0x07u64 == 0xC05B_4807u64)
        by (bit_vector);
    assert((2u64 << 30) | (8u64 << 16) | (0x48u64 << 8) | 0x03u64 == 0x8008_4803u64)
        by (bit_vector);
}

/// What `HIDIOCGRAWINFO` fills in, field by field.
///
/// The ids are signed in the kernel's header: one above `0x7FFF` arrives
/// negative.
#[derive(Debug, Clone, Copy)]
pub struct HidrawDevinfo {
    /// The bus the device sits on.
    pub bustype: u32,
    /// The vendor id, as the kernel declares it.
    pub vendor: i16,
    /// The product id, as the kernel declares it.
    pub product: i16,
}

/// What `HIDIOCGRAWINFO` says a node is.
#[derive(Debug, Clone, Copy, PartialEq, Eq, Structural)]
pub struct RawInfo {
    /// `BUS_USB` is `0x03`.
    pub bustype: u32,
    /// USB vendor id, as unsigned.
    pub vendor_id: u16,
    /// USB product id, as unsigned.
    pub product_id: u16,
}

/// The unsigned number with the same 16 bits as `n`.
pub open spec fn unsigned_bits(n: i16) -> int {
    if n < 0 {
        n + 0x1_0000
    } else {
        n as int
    }
}

/// The unsigned number with the same 16 bits as `n`.
fn as_unsigned(n: i16) -> (u: u16)
    ensures
        u == unsigned_bits(n),
{
    if n < 0 {
        (n as i32 + 0x1_0000) as u16
    } else {
        n as u16
    }
}

impl RawInfo {
    /// Reads the kernel's signed ids as the unsigned ids they are.
    pub fn from_devinfo(info: &HidrawDevinfo) -> (raw: Self)
        ensures
            raw.bustype == info.bustype,
            raw.vendor_id == unsigned_bits(info.vendor),
            raw.product_id == unsigned_bits(info.product),
    {
        RawInfo {
            bustype: info.bustype,
            vendor_id: as_unsigned(info.vendor),
            product_id: as_unsigned(info.product),
        }
    }

    /// Confirm that an opened node is the device that was meant.
    ///
    /// Enumeration resolves a name through sysfs and the node is opened later,
    /// while node numbers are reused: only what the kernel says of the node
    /// actually held settles which device it is.
    ///
    /// # Errors
    ///
    /// [`HidError::DeviceIdentityMismatch`] if the node is not `vid:pid`.
    pub fn expect_identity(&self, path: &str, vid: u16, pid: u16) -> (result: Result<
        (),
        HidError,
    >)
        ensures
            match result {
                Ok(()) => self.vendor_id == vid && self.product_id == pid,
                Err(HidError::DeviceIdentityMismatch { path: node, expected, got }) => {
                    &&& self.vendor_id != vid || self.product_id != pid
                    &&& node@ == path@
                    &&& expected == (vid, pid)
                    &&& got == (self.vendor_id, self.product_id)
                },
                Err(_) => false,
            },
    {
        if self.vendor_id != vid || self.product_id != pid {
            return Err(
                HidError::DeviceIdentityMismatch {
                    path: path.to_owned(),
                    expected: (vid, pid),
                    got: (self.vendor_id, self.product_id),
                },
            );
        }
        Ok(())
    }
}

/// Proof that the caller has explicitly asked to touch real hardware.
///
/// It holds a private unit field, so it cannot be constructed by a struct
/// literal; it has no `Default`, no `Clone` and no derive that would conjure
/// one. Everything that reads the live `/sys` tree or opens a node asks for one.
#[derive(Debug)]
pub struct HardwareOptIn(());

impl HardwareOptIn {
    /// The one and only way to obtain a [`HardwareOptIn`].
    ///
    /// Calling this is a statement that a real device is about to be opened,
    /// and a human should be at the desk when it happens.
    #[must_use]
    pub fn i_understand_this_touches_real_hardware() -> (opt_in: Self) {
        HardwareOptIn(())
    }
}

/// The transport contract.
///
/// Buffers are always exactly [`HIDRAW_BUF_LEN`] bytes, with `buf[0] = 0x00`
/// (the report id) and `buf[1..]` the 90-byte report.
pub trait FeatureTransport: Sized {
    /// Whether a SET of `buf` may leave the transport as `after` and return
    /// `result`.
    open spec fn sets(&self, buf: Seq<u8>, after: &Self, result: Result<(), HidError>) -> bool {
        true
    }

    /// Whether a GET into a buffer that held `before` may leave `filled` in the
    /// buffer and the transport as `after`, and return `result`.
    open spec fn gets(
        &self,
        before: Seq<u8>,
        filled: Seq<u8>,
        after: &Self,
        result: Result<usize, HidError>,
    ) -> bool {
        true
    }

    /// Issue a `SET_REPORT` (feature) carrying `buf`.
    ///
    /// # Errors
    ///
    /// [`HidError::Io`] with `op = "HIDIOCSFEATURE"` if the request fails.
    fn set_feature(&mut self, buf: &[u8; HIDRAW_BUF_LEN]) -> (result: Result<(), HidError>)
        ensures
            old(self).sets(buf@, final(self), result),
    ;

    /// Issue a `GET_REPORT` (feature) into `buf`, returning the byte count the
    /// device actually produced.
    ///
    /// A count below [`HIDRAW_BUF_LEN`] is not an error at this layer:
    /// [`crate::hid::Session`] turns it into [`HidError::ShortRead`].
    ///
    /// # Errors
    ///
    /// [`HidError::Io`] with `op = "HIDIOCGFEATURE"` if the request fails.
    fn get_feature(&mut self, buf: &mut [u8; HIDRAW_BUF_LEN]) -> (result: Result<usize, HidError>)
        ensures
            old(self).gets(old(buf)@, final(buf)@, final(self), result),
    ;
}

/// Reading a signed id as unsigned keeps its 16 bits: the number stays the same
/// modulo 65536 and is never negative.
pub proof fn law_unsigned_ids_keep_their_bits(n: i16)
    ensures
        0 <= unsigned_bits(n) <= 0xFFFF,
        (unsigned_bits(n) - n) % 0x1_0000 == 0,
{
}

}

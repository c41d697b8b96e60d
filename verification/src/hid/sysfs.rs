//! What sysfs says about a hidraw node's USB parent.
//!
//! The walk itself is I/O. Here are its decisions: where to look next
//! ([`walk_next`]), how an attribute is read ([`parse_attribute`]), and how
//! paths are put together.
use vstd::prelude::*;
use vstd::string::StringExecFns;

use crate::hid::error::HidError;
use crate::hid::transport::HardwareOptIn;
use crate::text::laws::{
    all_space, law_hexadecimal_keeps_its_case, law_hexadecimal_reads_back,
    law_numbers_are_read_exactly, law_trim_uncovers_the_text, numeral, unsigned_part,
};
use crate::text::{
    chars_of, digit_value, lower_hex, parse_unsigned, parsed, push_lower_hex, starts_with, trim,
    trimmed, upper_hex, IntFault,
};

verus! {

/// How far up the sysfs tree to look for the USB interface directory before
/// concluding the node has no USB ancestor.
///
/// A hidraw node sits at most a handful of levels below its interface; twelve
/// is generous and keeps a symlink loop from turning into a hang.
pub const MAX_ANCESTOR_WALK: usize = 12;

/// What a hidraw node's parent USB interface says about itself.
#[derive(Debug, Clone, Copy, PartialEq, Eq, Structural)]
pub struct UsbInterfaceInfo {
    /// `idVendor` of the USB device, `0x1532` for Razer.
    pub vendor_id: u16,
    /// `idProduct` of the USB device.
    pub product_id: u16,
    /// `bInterfaceNumber` of the interface owning this hidraw node.
    ///
    /// This is the value that must equal the device table's `report_index`.
    pub interface_number: u8,
    /// `bInterfaceProtocol`. `0x02` marks the control interface on the devices
    /// in the table.
    pub interface_protocol: u8,
}

/// Abstracts the sysfs walk so enumeration can be driven from memory.
pub trait SysfsSource: Sized {
    /// Whether listing the nodes may return `result`.
    open spec fn lists(&self, result: Result<Vec<String>, HidError>) -> bool {
        true
    }

    /// Whether resolving the node `name` may return `result`.
    open spec fn reports(
        &self,
        name: Seq<char>,
        result: Result<Option<UsbInterfaceInfo>, HidError>,
    ) -> bool {
        true
    }

    /// Whether `path` is where the node `name` lives.
    open spec fn locates(&self, name: Seq<char>, path: Seq<char>) -> bool {
        true
    }

    /// The entry names under `/sys/class/hidraw`, e.g. `["hidraw0", "hidraw3"]`.
    ///
    /// Order is whatever the source produces; [`crate::hid::find_device`] sorts
    /// before searching.
    ///
    /// # Errors
    ///
    /// [`HidError::Io`] if the directory cannot be listed.
    fn hidraw_names(&self) -> (result: Result<Vec<String>, HidError>)
        ensures
            self.lists(result),
    ;

    /// Resolve the parent USB interface for one hidraw node.
    ///
    /// Returns `Ok(None)` when the node has no USB interface ancestor: a
    /// Bluetooth, I2C or virtual HID device. Such nodes are skipped.
    ///
    /// # Errors
    ///
    /// [`HidError::Sysfs`] if an attribute exists but does not parse.
    fn interface_info(&self, hidraw_name: &str) -> (result: Result<
        Option<UsbInterfaceInfo>,
        HidError,
    >)
        ensures
            self.reports(hidraw_name@, result),
    ;

    /// The device node path for a hidraw name, e.g. `/dev/hidraw3`.
    fn device_path(&self, hidraw_name: &str) -> (path: String)
        ensures
            self.locates(hidraw_name@, path@),
    ;
}

// ---------------------------------------------------------------------------
// Paths
// ---------------------------------------------------------------------------

/// `name` below `dir`: an absolute `name` stands for itself, and one slash
/// separates the two otherwise.
pub open spec fn joined(dir: Seq<char>, name: Seq<char>) -> Seq<char> {
    if name.len() > 0 && name[0] == '/' {
        name
    } else if dir.len() == 0 || dir.last() == '/' {
        dir + name
    } else {
        dir + "/"@ + name
    }
}

/// `name` below `dir`.
pub fn join(dir: &str, name: &str) -> (path: String)
    ensures
        path@ == joined(dir@, name@),
{
    let d = chars_of(dir);
    let n = chars_of(name);
    if n.len() > 0 && n[0] == '/' {
        return name.to_owned();
    }
    let mut path = dir.to_owned();
    if d.len() > 0 && d[d.len() - 1] != '/' {
        path.append("/");
    }
    path.append(name);
    path
}

/// The node for a hidraw name, e.g. `/dev/hidraw3`.
pub fn device_node(hidraw_name: &str) -> (path: String)
    ensures
        path@ == joined("/dev"@, hidraw_name@),
{
    join("/dev", hidraw_name)
}

/// Where the live sysfs tree is read.
///
/// Requires a [`HardwareOptIn`]: reading the tree is the step immediately
/// before opening a node.
#[derive(Debug)]
pub struct RealSysfs {
    root: String,
}

impl RealSysfs {
    /// The directory the tree is mounted at.
    pub closed spec fn root(&self) -> Seq<char> {
        self.root@
    }

    /// A tree rooted at `/sys`.
    pub fn new(opt_in: &HardwareOptIn) -> (sysfs: Self)
        ensures
            sysfs.root() == "/sys"@,
    {
        RealSysfs::with_root(opt_in, "/sys".to_owned())
    }

    /// A tree rooted somewhere else.
    ///
    /// A diagnostic hook: point it at a captured copy of a `/sys` tree to
    /// reproduce an enumeration problem offline. The root affects where metadata
    /// is read, not where the device node lives.
    pub fn with_root(_opt_in: &HardwareOptIn, root: String) -> (sysfs: Self)
        ensures
            sysfs.root() == root@,
    {
        RealSysfs { root }
    }

    /// `<root>/class/hidraw`.
    pub fn class_dir(&self) -> (path: String)
        ensures
            path@ == joined(joined(self.root(), "class"@), "hidraw"@),
    {
        let class = join(self.root.as_str(), "class");
        join(class.as_str(), "hidraw")
    }

    /// `<root>/class/hidraw/<name>/device`.
    pub fn device_link(&self, hidraw_name: &str) -> (path: String)
        ensures
            path@ == joined(
                joined(joined(joined(self.root(), "class"@), "hidraw"@), hidraw_name@),
                "device"@,
            ),
    {
        let class = self.class_dir();
        let entry = join(class.as_str(), hidraw_name);
        join(entry.as_str(), "device")
    }
}

// ---------------------------------------------------------------------------
// The walk
// ---------------------------------------------------------------------------

/// Where the search for a node's USB interface stands. Ancestors are counted
/// from the device directory itself, which is number 0.
#[derive(Debug, Clone, Copy, PartialEq, Eq, Structural)]
pub enum Walk {
    /// Look for `bInterfaceNumber` in this ancestor.
    Interface(usize),
    /// Look for `idVendor` in the parent of this ancestor.
    Device(usize),
    /// Read `idVendor` and `idProduct` in the parent of this ancestor, then
    /// `bInterfaceNumber` and `bInterfaceProtocol` in the ancestor.
    Read(usize),
    /// The node has no USB interface ancestor.
    NoUsbParent,
}

/// What a look at a directory found.
#[derive(Debug, Clone, Copy, PartialEq, Eq, Structural)]
pub enum Finding {
    /// The attribute is there.
    Present,
    /// The directory does not hold the attribute.
    Absent,
    /// There is no such directory: the walk has passed the root.
    NoDirectory,
}

/// The step after `walk` on a finding.
pub open spec fn walked(walk: Walk, finding: Finding) -> Walk {
    match walk {
        Walk::Interface(n) => match finding {
            Finding::Present => Walk::Device(n),
            Finding::Absent => if n + 1 < MAX_ANCESTOR_WALK {
                Walk::Interface((n + 1) as usize)
            } else {
                Walk::NoUsbParent
            },
            Finding::NoDirectory => Walk::NoUsbParent,
        },
        Walk::Device(n) => match finding {
            Finding::Present => Walk::Read(n),
            _ => Walk::NoUsbParent,
        },
        _ => walk,
    }
}

/// The step after a whole row of findings.
pub open spec fn walked_all(walk: Walk, findings: Seq<Finding>) -> Walk
    decreases findings.len(),
{
    if findings.len() == 0 {
        walk
    } else {
        walked(walked_all(walk, findings.drop_last()), findings.last())
    }
}

/// Where to look first: at the device directory itself.
pub fn walk_start() -> (walk: Walk)
    ensures
        walk == Walk::Interface(0),
{
    Walk::Interface(0)
}

/// Where to look next.
///
/// The nearest ancestor with a `bInterfaceNumber` is the interface, among the
/// first [`MAX_ANCESTOR_WALK`]; it counts only if its parent has an `idVendor`.
pub fn walk_next(walk: Walk, finding: Finding) -> (next: Walk)
    ensures
        next == walked(walk, finding),
{
    match walk {
        Walk::Interface(n) => match finding {
            Finding::Present => Walk::Device(n),
            Finding::Absent => if n < MAX_ANCESTOR_WALK - 1 {
                Walk::Interface(n + 1)
            } else {
                Walk::NoUsbParent
            },
            Finding::NoDirectory => Walk::NoUsbParent,
        },
        Walk::Device(n) => match finding {
            Finding::Present => Walk::Read(n),
            _ => Walk::NoUsbParent,
        },
        Walk::Read(n) => Walk::Read(n),
        Walk::NoUsbParent => Walk::NoUsbParent,
    }
}

/// The walk finds the nearest ancestor that holds `bInterfaceNumber`, provided
/// it is among the first twelve and its parent holds `idVendor`.
pub proof fn law_walk_finds_the_nearest_interface(findings: Seq<Finding>, n: int)
    requires
        0 <= n < MAX_ANCESTOR_WALK,
        findings.len() == n + 2,
        forall|i: int| 0 <= i < n ==> findings[i] == Finding::Absent,
        findings[n] == Finding::Present,
    ensures
        walked_all(Walk::Interface(0), findings) == (if findings[n + 1] == Finding::Present {
            Walk::Read(n as usize)
        } else {
            Walk::NoUsbParent
        }),
{
    lemma_absent_climbs(findings.take(n));
    assert(findings.take(n + 1).drop_last() =~= findings.take(n));
    assert(findings.take(n + 1).last() == findings[n]);
    assert(walked_all(Walk::Interface(0), findings.take(n + 1)) == Walk::Device(n as usize));
    assert(findings.drop_last() =~= findings.take(n + 1));
}

/// Every walk ends after at most thirteen findings.
pub proof fn law_walk_is_bounded(findings: Seq<Finding>)
    requires
        findings.len() > MAX_ANCESTOR_WALK,
    ensures
        walked_all(Walk::Interface(0), findings) is Read || walked_all(
            Walk::Interface(0),
            findings,
        ) is NoUsbParent,
{
    lemma_walk_progress(findings);
}

/// What stands in the directories from the device directory upwards: in each, a
/// `bInterfaceNumber` or not, and an `idVendor` or not.
pub struct Ancestry {
    /// How many directories there are up to the root.
    pub depth: nat,
    /// Whether a directory holds `bInterfaceNumber`.
    pub has_number: spec_fn(nat) -> bool,
    /// Whether a directory holds `idVendor`.
    pub has_vendor: spec_fn(nat) -> bool,
}

/// What a look in such a tree finds.
pub open spec fn found(tree: Ancestry, walk: Walk) -> Finding {
    match walk {
        Walk::Interface(n) => if n >= tree.depth {
            Finding::NoDirectory
        } else if (tree.has_number)(n as nat) {
            Finding::Present
        } else {
            Finding::Absent
        },
        Walk::Device(n) => if n + 1 >= tree.depth {
            Finding::NoDirectory
        } else if (tree.has_vendor)((n + 1) as nat) {
            Finding::Present
        } else {
            Finding::Absent
        },
        _ => Finding::Absent,
    }
}

/// Where the walk stands after so many looks in such a tree.
pub open spec fn walked_in(tree: Ancestry, walk: Walk, looks: nat) -> Walk
    decreases looks,
{
    if looks == 0 {
        walk
    } else {
        walked_in(tree, walked(walk, found(tree, walk)), (looks - 1) as nat)
    }
}

/// The nearest directory from `n` upwards that holds `bInterfaceNumber`, among
/// those that are looked at.
pub open spec fn nearest_interface(tree: Ancestry, n: nat) -> Option<nat>
    decreases MAX_ANCESTOR_WALK - n,
{
    if n >= MAX_ANCESTOR_WALK || n >= tree.depth {
        None
    } else if (tree.has_number)(n) {
        Some(n)
    } else {
        nearest_interface(tree, n + 1)
    }
}

/// Where a walk of a tree ends: at the nearest of the first twelve directories
/// that holds `bInterfaceNumber`, provided its parent holds `idVendor`.
pub open spec fn walk_result(tree: Ancestry, n: nat) -> Walk {
    match nearest_interface(tree, n) {
        Some(k) => if k + 1 < tree.depth && (tree.has_vendor)(k + 1) {
            Walk::Read(k as usize)
        } else {
            Walk::NoUsbParent
        },
        None => Walk::NoUsbParent,
    }
}

/// Thirteen looks settle the walk of any tree, and where it ends is
/// [`walk_result`].
pub proof fn law_a_walk_ends_at_the_nearest_usb_interface(tree: Ancestry)
    ensures
        walked_in(tree, Walk::Interface(0), 13) == walk_result(tree, 0),
{
    lemma_walk_from(tree, 0);
}

/// A walk that has come to directory `n` needs at most `13 - n` more looks.
proof fn lemma_walk_from(tree: Ancestry, n: nat)
    requires
        n < MAX_ANCESTOR_WALK,
    ensures
        walked_in(tree, Walk::Interface(n as usize), (13 - n) as nat) == walk_result(tree, n),
    decreases MAX_ANCESTOR_WALK - n,
{
    let here = Walk::Interface(n as usize);
    let next = walked(here, found(tree, here));
    let rest = (12 - n) as nat;
    assert(walked_in(tree, here, (13 - n) as nat) == walked_in(tree, next, rest));
    if n >= tree.depth {
        lemma_walk_stays(tree, next, rest);
    } else if (tree.has_number)(n) {
        let last = walked(next, found(tree, next));
        assert(walked_in(tree, next, rest) == walked_in(tree, last, (rest - 1) as nat));
        lemma_walk_stays(tree, last, (rest - 1) as nat);
    } else if n + 1 < MAX_ANCESTOR_WALK {
        lemma_walk_from(tree, n + 1);
    } else {
        lemma_walk_stays(tree, next, rest);
        assert(nearest_interface(tree, n + 1) is None);
    }
}

/// A walk that has ended stays where it is.
proof fn lemma_walk_stays(tree: Ancestry, walk: Walk, looks: nat)
    requires
        walk is Read || walk is NoUsbParent,
    ensures
        walked_in(tree, walk, looks) == walk,
    decreases looks,
{
    if looks > 0 {
        lemma_walk_stays(tree, walk, (looks - 1) as nat);
    }
}

/// After `k` findings a walk that is still looking has climbed at least `k - 1`
/// levels.
proof fn lemma_walk_progress(findings: Seq<Finding>)
    ensures
        match walked_all(Walk::Interface(0), findings) {
            Walk::Interface(n) => n == findings.len() && n < MAX_ANCESTOR_WALK,
            Walk::Device(n) => n + 1 == findings.len() && n < MAX_ANCESTOR_WALK,
            _ => true,
        },
    decreases findings.len(),
{
    if findings.len() > 0 {
        lemma_walk_progress(findings.drop_last());
    }
}

/// Absent findings climb one level each.
proof fn lemma_absent_climbs(findings: Seq<Finding>)
    requires
        findings.len() < MAX_ANCESTOR_WALK,
        forall|i: int| 0 <= i < findings.len() ==> findings[i] == Finding::Absent,
    ensures
        walked_all(Walk::Interface(0), findings) == Walk::Interface(findings.len() as usize),
    decreases findings.len(),
{
    if findings.len() > 0 {
        lemma_absent_climbs(findings.drop_last());
        assert(findings.last() == Finding::Absent);
    }
}

// ---------------------------------------------------------------------------
// Attributes
// ---------------------------------------------------------------------------

/// What `{:?}` prints for `text`: the text in double quotes, with escapes.
pub uninterp spec fn debug_quoted(text: Seq<char>) -> Seq<char>;

/// Prints `text` through `<str as Debug>::fmt`, by way of `format!`.
///
/// The contract claims only that the result is a function of the text.
#[verifier::external_body]
fn quote(text: &str) -> (quoted: String)
    ensures
        quoted@ == debug_quoted(text@),
{
    format!("{text:?}")
}

/// How a number that could not be read is described.
pub open spec fn fault_text(fault: IntFault) -> Seq<char> {
    match fault {
        IntFault::Empty => "cannot parse integer from empty string"@,
        IntFault::InvalidDigit => "invalid digit found in string"@,
        IntFault::Overflow => "number too large to fit in target type"@,
    }
}

/// How a number that could not be read is described.
pub fn describe_fault(fault: IntFault) -> (text: &'static str)
    ensures
        text@ == fault_text(fault),
{
    match fault {
        IntFault::Empty => "cannot parse integer from empty string",
        IntFault::InvalidDigit => "invalid digit found in string",
        IntFault::Overflow => "number too large to fit in target type",
    }
}

/// The complaint about an attribute that does not hold a hexadecimal number;
/// `quoted` is its text in quotes.
pub fn not_hex(path: &str, quoted: &str, fault: IntFault) -> (message: String)
    ensures
        message@ == path@ + ": "@ + quoted@ + " is not hex: "@ + fault_text(fault),
{
    let mut message = path.to_owned();
    message.append(": ");
    message.append(quoted);
    message.append(" is not hex: ");
    message.append(describe_fault(fault));
    message
}

/// The error for an attribute that could not be read at all.
pub fn unreadable(path: &str, reason: &str) -> (error: HidError)
    ensures
        error is Sysfs,
        error->Sysfs_0@ == path@ + ": "@ + reason@,
{
    let mut message = path.to_owned();
    message.append(": ");
    message.append(reason);
    HidError::Sysfs(message)
}

/// Whether `result` is what the attribute text `raw` stands for, where at most
/// `max` fits.
pub open spec fn attribute_reading(
    path: Seq<char>,
    raw: Seq<char>,
    max: u32,
    result: Result<u32, HidError>,
) -> bool {
    match parsed(trim(raw), 16, u32::MAX as nat) {
        Err(fault) => {
            &&& result is Err
            &&& result->Err_0 is Sysfs
            &&& result->Err_0->Sysfs_0@ == path + ": "@ + debug_quoted(trim(raw))
                + " is not hex: "@ + fault_text(fault)
        },
        Ok(value) => if value > max {
            &&& result is Err
            &&& result->Err_0 is Sysfs
            &&& result->Err_0->Sysfs_0@ == path + ": 0x"@ + lower_hex(value, 1)
                + " does not fit the expected width"@
        } else {
            result is Ok && result->Ok_0 == value
        },
    }
}

/// Read a sysfs attribute holding a hexadecimal integer of at most `max`.
///
/// USB attributes are printed without a `0x` prefix: `idVendor` is `"1532"`,
/// `bInterfaceNumber` is `"03"`.
///
/// # Errors
///
/// [`HidError::Sysfs`] if the text is not a hexadecimal number or is too large.
pub fn parse_attribute(path: &str, raw: &str, max: u32) -> (result: Result<u32, HidError>)
    ensures
        attribute_reading(path@, raw@, max, result),
{
    let text = trimmed(raw);
    let digits = chars_of(text.as_str());
    assert(digits@.skip(0) =~= digits@);
    match parse_unsigned(&digits, 0, 16, u32::MAX as u64) {
        Err(fault) => {
            let quoted = quote(text.as_str());
            Err(HidError::Sysfs(not_hex(path, quoted.as_str(), fault)))
        },
        Ok(value) => {
            if value > max as u64 {
                let mut message = path.to_owned();
                message.append(": 0x");
                push_lower_hex(&mut message, value, 1);
                message.append(" does not fit the expected width");
                return Err(HidError::Sysfs(message));
            }
            Ok(value as u32)
        },
    }
}

/// Read an attribute that holds an id of 16 bits.
///
/// # Errors
///
/// [`HidError::Sysfs`] if the text is not a hexadecimal number or is too large.
pub fn parse_u16_attribute(path: &str, raw: &str) -> (result: Result<u16, HidError>)
    ensures
        match result {
            Ok(value) => attribute_reading(path@, raw@, 0xFFFF, Ok(value as u32)),
            Err(e) => attribute_reading(path@, raw@, 0xFFFF, Err(e)),
        },
{
    match parse_attribute(path, raw, 0xFFFF) {
        Ok(value) => Ok(value as u16),
        Err(e) => Err(e),
    }
}

/// Read an attribute that holds a number of 8 bits.
///
/// # Errors
///
/// [`HidError::Sysfs`] if the text is not a hexadecimal number or is too large.
pub fn parse_u8_attribute(path: &str, raw: &str) -> (result: Result<u8, HidError>)
    ensures
        match result {
            Ok(value) => attribute_reading(path@, raw@, 0xFF, Ok(value as u32)),
            Err(e) => attribute_reading(path@, raw@, 0xFF, Err(e)),
        },
{
    match parse_attribute(path, raw, 0xFF) {
        Ok(value) => Ok(value as u8),
        Err(e) => Err(e),
    }
}

// ---------------------------------------------------------------------------
// The interface
// ---------------------------------------------------------------------------

/// The four attributes that describe an interface.
#[derive(Debug, Clone, Copy, PartialEq, Eq, Structural)]
pub enum Attribute {
    /// `idVendor` of the USB device.
    Vendor,
    /// `idProduct` of the USB device.
    Product,
    /// `bInterfaceNumber` of the interface.
    Number,
    /// `bInterfaceProtocol` of the interface.
    Protocol,
}

impl Attribute {
    /// Where the attribute of an interface directory and its parent, the USB
    /// device directory, is kept.
    pub open spec fn location(self, usb: Seq<char>, interface: Seq<char>) -> Seq<char> {
        match self {
            Attribute::Vendor => joined(usb, "idVendor"@),
            Attribute::Product => joined(usb, "idProduct"@),
            Attribute::Number => joined(interface, "bInterfaceNumber"@),
            Attribute::Protocol => joined(interface, "bInterfaceProtocol"@),
        }
    }

    /// Where the attribute of an interface directory and its parent, the USB
    /// device directory, is kept.
    pub fn path(self, usb: &str, interface: &str) -> (path: String)
        ensures
            path@ == self.location(usb@, interface@),
    {
        match self {
            Attribute::Vendor => join(usb, "idVendor"),
            Attribute::Product => join(usb, "idProduct"),
            Attribute::Number => join(interface, "bInterfaceNumber"),
            Attribute::Protocol => join(interface, "bInterfaceProtocol"),
        }
    }
}

/// Whether `result` is what reading the attribute at `path` comes to: the text
/// that was read, as a number of at most `max`, or the reason why there is none.
pub open spec fn file_reading(
    path: Seq<char>,
    file: Result<String, String>,
    max: u32,
    result: Result<u32, HidError>,
) -> bool {
    match file {
        Ok(raw) => attribute_reading(path, raw@, max, result),
        Err(reason) => {
            &&& result is Err
            &&& result->Err_0 is Sysfs
            &&& result->Err_0->Sysfs_0@ == path + ": "@ + reason@
        },
    }
}

/// An id of 16 bits as a number.
pub open spec fn widened_u16(result: Result<u16, HidError>) -> Result<u32, HidError> {
    match result {
        Ok(value) => Ok(value as u32),
        Err(e) => Err(e),
    }
}

/// A number of 8 bits as a number.
pub open spec fn widened_u8(result: Result<u8, HidError>) -> Result<u32, HidError> {
    match result {
        Ok(value) => Ok(value as u32),
        Err(e) => Err(e),
    }
}

/// Read a file that holds an id of 16 bits.
fn read_u16(path: &str, file: Result<String, String>) -> (result: Result<u16, HidError>)
    ensures
        file_reading(path@, file, 0xFFFF, widened_u16(result)),
{
    match file {
        Ok(raw) => parse_u16_attribute(path, raw.as_str()),
        Err(reason) => Err(unreadable(path, reason.as_str())),
    }
}

/// Read a file that holds a number of 8 bits.
fn read_u8(path: &str, file: Result<String, String>) -> (result: Result<u8, HidError>)
    ensures
        file_reading(path@, file, 0xFF, widened_u8(result)),
{
    match file {
        Ok(raw) => parse_u8_attribute(path, raw.as_str()),
        Err(reason) => Err(unreadable(path, reason.as_str())),
    }
}

/// The interface that four readings describe, or the first error among them in
/// the order vendor, product, number, protocol.
pub open spec fn described(
    vendor: Result<u16, HidError>,
    product: Result<u16, HidError>,
    number: Result<u8, HidError>,
    protocol: Result<u8, HidError>,
) -> Result<UsbInterfaceInfo, HidError> {
    match vendor {
        Err(e) => Err(e),
        Ok(vendor_id) => match product {
            Err(e) => Err(e),
            Ok(product_id) => match number {
                Err(e) => Err(e),
                Ok(interface_number) => match protocol {
                    Err(e) => Err(e),
                    Ok(interface_protocol) => Ok(
                        UsbInterfaceInfo {
                            vendor_id,
                            product_id,
                            interface_number,
                            interface_protocol,
                        },
                    ),
                },
            },
        },
    }
}

/// The interface that four readings describe.
///
/// # Errors
///
/// The first error in the order vendor, product, number, protocol.
pub fn interface_of(
    vendor: Result<u16, HidError>,
    product: Result<u16, HidError>,
    number: Result<u8, HidError>,
    protocol: Result<u8, HidError>,
) -> (result: Result<UsbInterfaceInfo, HidError>)
    ensures
        result == described(vendor, product, number, protocol),
{
    let vendor_id: u16 = match vendor {
        Ok(id) => id,
        Err(e) => return Err(e),
    };
    let product_id: u16 = match product {
        Ok(id) => id,
        Err(e) => return Err(e),
    };
    let interface_number: u8 = match number {
        Ok(n) => n,
        Err(e) => return Err(e),
    };
    let interface_protocol: u8 = match protocol {
        Ok(n) => n,
        Err(e) => return Err(e),
    };
    Ok(UsbInterfaceInfo { vendor_id, product_id, interface_number, interface_protocol })
}

/// What the four attribute files of an interface hold: the text of each, or the
/// reason why it could not be read.
#[derive(Debug)]
pub struct AttributeFiles {
    /// The file of [`Attribute::Vendor`].
    pub vendor: Result<String, String>,
    /// The file of [`Attribute::Product`].
    pub product: Result<String, String>,
    /// The file of [`Attribute::Number`].
    pub number: Result<String, String>,
    /// The file of [`Attribute::Protocol`].
    pub protocol: Result<String, String>,
}

/// Whether `result` is the interface whose directory and USB device directory
/// hold the given files.
pub open spec fn interface_reading(
    usb: Seq<char>,
    interface: Seq<char>,
    files: AttributeFiles,
    result: Result<UsbInterfaceInfo, HidError>,
) -> bool {
    exists|
        vendor: Result<u16, HidError>,
        product: Result<u16, HidError>,
        number: Result<u8, HidError>,
        protocol: Result<u8, HidError>,
    |
        {
            &&& file_reading(
                Attribute::Vendor.location(usb, interface),
                files.vendor,
                0xFFFF,
                widened_u16(vendor),
            )
            &&& file_reading(
                Attribute::Product.location(usb, interface),
                files.product,
                0xFFFF,
                widened_u16(product),
            )
            &&& file_reading(
                Attribute::Number.location(usb, interface),
                files.number,
                0xFF,
                widened_u8(number),
            )
            &&& file_reading(
                Attribute::Protocol.location(usb, interface),
                files.protocol,
                0xFF,
                widened_u8(protocol),
            )
            &&& result == #[trigger] described(vendor, product, number, protocol)
        }
}

/// Read an interface from its four attribute files.
///
/// # Errors
///
/// [`HidError::Sysfs`] for the first file, in the order vendor, product, number,
/// protocol, that could not be read or does not hold a number of its width.
pub fn read_interface(usb: &str, interface: &str, files: AttributeFiles) -> (result: Result<
    UsbInterfaceInfo,
    HidError,
>)
    ensures
        interface_reading(usb@, interface@, files, result),
{
    let vendor_path = Attribute::Vendor.path(usb, interface);
    let vendor = read_u16(vendor_path.as_str(), files.vendor);
    let product_path = Attribute::Product.path(usb, interface);
    let product = read_u16(product_path.as_str(), files.product);
    let number_path = Attribute::Number.path(usb, interface);
    let number = read_u8(number_path.as_str(), files.number);
    let protocol_path = Attribute::Protocol.path(usb, interface);
    let protocol = read_u8(protocol_path.as_str(), files.protocol);
    let result = interface_of(vendor, product, number, protocol);
    assert(result == described(vendor, product, number, protocol));
    result
}

// ---------------------------------------------------------------------------
// Laws
// ---------------------------------------------------------------------------

/// A relative name is put below the directory with one slash between them, and
/// an absolute one stands for itself.
pub proof fn law_paths_are_joined_with_one_slash(dir: Seq<char>, name: Seq<char>)
    ensures
        starts_with(name, "/"@) ==> joined(dir, name) == name,
        !starts_with(name, "/"@) && dir.len() > 0 && dir.last() != '/' ==> joined(dir, name) == dir
            + "/"@ + name && joined(dir + "/"@, name) == joined(dir, name),
        !starts_with(name, "/"@) && dir.len() == 0 ==> joined(dir, name) == name,
{
    reveal_strlit("/");
    if name.len() > 0 && name[0] == '/' {
        assert(name.take(1) =~= "/"@);
    }
    if name.len() > 0 && starts_with(name, "/"@) {
        assert(name.take(1)[0] == name[0]);
    }
    assert((dir + "/"@).last() == '/');
    if dir.len() == 0 {
        assert(dir + name =~= name);
    }
}

/// The vendor and product are kept with the device, the number and protocol
/// with the interface.
pub proof fn law_where_attributes_are_kept(usb: Seq<char>, interface: Seq<char>)
    requires
        usb.len() > 0,
        usb.last() != '/',
        interface.len() > 0,
        interface.last() != '/',
    ensures
        Attribute::Vendor.location(usb, interface) == usb + "/"@ + "idVendor"@,
        Attribute::Product.location(usb, interface) == usb + "/"@ + "idProduct"@,
        Attribute::Number.location(usb, interface) == interface + "/"@ + "bInterfaceNumber"@,
        Attribute::Protocol.location(usb, interface) == interface + "/"@ + "bInterfaceProtocol"@,
{
    reveal_strlit("idVendor");
    reveal_strlit("idProduct");
    reveal_strlit("bInterfaceNumber");
    reveal_strlit("bInterfaceProtocol");
    assert("idVendor"@[0] == 'i' && "idProduct"@[0] == 'i' && "bInterfaceNumber"@[0] == 'b'
        && "bInterfaceProtocol"@[0] == 'b');
}

/// A number in hexadecimal, in either case and with whatever whitespace around
/// it, is read as itself where it fits and refused where it does not.
pub proof fn law_an_attribute_reads_back(
    path: Seq<char>,
    before: Seq<char>,
    value: u32,
    width: nat,
    after: Seq<char>,
    max: u32,
    result: Result<u32, HidError>,
)
    requires
        all_space(before),
        all_space(after),
        attribute_reading(path, before + lower_hex(value as nat, width) + after, max, result)
            || attribute_reading(path, before + upper_hex(value as nat, width) + after, max, result),
    ensures
        value <= max ==> result == Ok::<u32, HidError>(value),
        value > max ==> result is Err && result->Err_0 is Sysfs && result->Err_0->Sysfs_0@ == path
            + ": 0x"@ + lower_hex(value as nat, 1) + " does not fit the expected width"@,
{
    let a = lower_hex(value as nat, width);
    let b = upper_hex(value as nat, width);
    law_hexadecimal_reads_back(value as nat, width, u32::MAX as nat);
    law_hexadecimal_keeps_its_case(value as nat, width, 0);
    law_hexadecimal_keeps_its_case(value as nat, width, a.len() - 1);
    law_hexadecimal_keeps_its_case(value as nat, width, b.len() - 1);
    law_trim_uncovers_the_text(before, a, after);
    law_trim_uncovers_the_text(before, b, after);
}

/// What is read from an attribute is the number that the hexadecimal digits in
/// its trimmed text write, and fits.
pub proof fn law_an_attribute_is_its_digits(
    path: Seq<char>,
    raw: Seq<char>,
    max: u32,
    result: Result<u32, HidError>,
)
    requires
        attribute_reading(path, raw, max, result),
    ensures
        result is Ok <==> {
            &&& trim(raw).len() > 0
            &&& forall|i: int|
                0 <= i < unsigned_part(trim(raw)).len() ==> digit_value(
                    #[trigger] unsigned_part(trim(raw))[i],
                    16,
                ) is Some
            &&& numeral(unsigned_part(trim(raw)), 16) <= max
        },
        result is Ok ==> result->Ok_0 == numeral(unsigned_part(trim(raw)), 16),
        result is Err ==> result->Err_0 is Sysfs && starts_with(
            result->Err_0->Sysfs_0@,
            path + ": "@,
        ),
{
    law_numbers_are_read_exactly(trim(raw), 16, u32::MAX as nat);
    if result is Err {
        reveal_strlit(": ");
        reveal_strlit(": 0x");
        let message = result->Err_0->Sysfs_0@;
        assert(message.take((path + ": "@).len() as int) =~= path + ": "@);
    }
}

/// The number that a file stands for, where it holds one of at most `max`.
pub open spec fn file_number(file: Result<String, String>, max: nat) -> Option<nat> {
    match file {
        Err(_) => None,
        Ok(raw) => match parsed(trim(raw@), 16, max) {
            Ok(n) => Some(n),
            Err(_) => None,
        },
    }
}

/// An interface has the vendor, product, number and protocol that its four files
/// hold, each from its own file; it is described exactly where all four hold a
/// number of their width.
pub proof fn law_an_interface_is_its_four_files(
    usb: Seq<char>,
    interface: Seq<char>,
    files: AttributeFiles,
    result: Result<UsbInterfaceInfo, HidError>,
)
    requires
        interface_reading(usb, interface, files, result),
    ensures
        result is Ok <==> {
            &&& file_number(files.vendor, 0xFFFF) is Some
            &&& file_number(files.product, 0xFFFF) is Some
            &&& file_number(files.number, 0xFF) is Some
            &&& file_number(files.protocol, 0xFF) is Some
        },
        result is Ok ==> {
            &&& file_number(files.vendor, 0xFFFF) == Some(result->Ok_0.vendor_id as nat)
            &&& file_number(files.product, 0xFFFF) == Some(result->Ok_0.product_id as nat)
            &&& file_number(files.number, 0xFF) == Some(result->Ok_0.interface_number as nat)
            &&& file_number(files.protocol, 0xFF) == Some(result->Ok_0.interface_protocol as nat)
        },
{
    let (vendor, product, number, protocol) = lemma_four_readings(usb, interface, files, result);
    lemma_file_number(
        Attribute::Vendor.location(usb, interface),
        files.vendor,
        0xFFFF,
        widened_u16(vendor),
    );
    lemma_file_number(
        Attribute::Product.location(usb, interface),
        files.product,
        0xFFFF,
        widened_u16(product),
    );
    lemma_file_number(
        Attribute::Number.location(usb, interface),
        files.number,
        0xFF,
        widened_u8(number),
    );
    lemma_file_number(
        Attribute::Protocol.location(usb, interface),
        files.protocol,
        0xFF,
        widened_u8(protocol),
    );
}

/// Where an interface cannot be described, the error is that of the first file,
/// in the order vendor, product, number, protocol, that holds no number of its
/// width.
pub proof fn law_the_first_bad_file_is_reported(
    usb: Seq<char>,
    interface: Seq<char>,
    files: AttributeFiles,
    result: Result<UsbInterfaceInfo, HidError>,
)
    requires
        interface_reading(usb, interface, files, result),
        result is Err,
    ensures
        result->Err_0 is Sysfs,
        starts_with(
            result->Err_0->Sysfs_0@,
            (if file_number(files.vendor, 0xFFFF) is None {
                joined(usb, "idVendor"@)
            } else if file_number(files.product, 0xFFFF) is None {
                joined(usb, "idProduct"@)
            } else if file_number(files.number, 0xFF) is None {
                joined(interface, "bInterfaceNumber"@)
            } else {
                joined(interface, "bInterfaceProtocol"@)
            }) + ": "@,
        ),
{
    let (vendor, product, number, protocol) = lemma_four_readings(usb, interface, files, result);
    lemma_file_number(
        Attribute::Vendor.location(usb, interface),
        files.vendor,
        0xFFFF,
        widened_u16(vendor),
    );
    lemma_file_number(
        Attribute::Product.location(usb, interface),
        files.product,
        0xFFFF,
        widened_u16(product),
    );
    lemma_file_number(
        Attribute::Number.location(usb, interface),
        files.number,
        0xFF,
        widened_u8(number),
    );
    lemma_file_number(
        Attribute::Protocol.location(usb, interface),
        files.protocol,
        0xFF,
        widened_u8(protocol),
    );
}

/// The four readings behind an interface.
proof fn lemma_four_readings(
    usb: Seq<char>,
    interface: Seq<char>,
    files: AttributeFiles,
    result: Result<UsbInterfaceInfo, HidError>,
) -> (readings: (
    Result<u16, HidError>,
    Result<u16, HidError>,
    Result<u8, HidError>,
    Result<u8, HidError>,
))
    requires
        interface_reading(usb, interface, files, result),
    ensures
        file_reading(
            Attribute::Vendor.location(usb, interface),
            files.vendor,
            0xFFFF,
            widened_u16(readings.0),
        ),
        file_reading(
            Attribute::Product.location(usb, interface),
            files.product,
            0xFFFF,
            widened_u16(readings.1),
        ),
        file_reading(
            Attribute::Number.location(usb, interface),
            files.number,
            0xFF,
            widened_u8(readings.2),
        ),
        file_reading(
            Attribute::Protocol.location(usb, interface),
            files.protocol,
            0xFF,
            widened_u8(readings.3),
        ),
        result == described(readings.0, readings.1, readings.2, readings.3),
{
    choose|
        vendor: Result<u16, HidError>,
        product: Result<u16, HidError>,
        number: Result<u8, HidError>,
        protocol: Result<u8, HidError>,
    |
        {
            &&& file_reading(
                Attribute::Vendor.location(usb, interface),
                files.vendor,
                0xFFFF,
                widened_u16(vendor),
            )
            &&& file_reading(
                Attribute::Product.location(usb, interface),
                files.product,
                0xFFFF,
                widened_u16(product),
            )
            &&& file_reading(
                Attribute::Number.location(usb, interface),
                files.number,
                0xFF,
                widened_u8(number),
            )
            &&& file_reading(
                Attribute::Protocol.location(usb, interface),
                files.protocol,
                0xFF,
                widened_u8(protocol),
            )
            &&& result == #[trigger] described(vendor, product, number, protocol)
        }
}

/// A file is read as the number it holds, or refused with its path in front.
proof fn lemma_file_number(
    path: Seq<char>,
    file: Result<String, String>,
    max: u32,
    result: Result<u32, HidError>,
)
    requires
        file_reading(path, file, max, result),
    ensures
        result is Ok ==> file_number(file, max as nat) == Some(result->Ok_0 as nat),
        result is Err ==> file_number(file, max as nat) is None && result->Err_0 is Sysfs
            && starts_with(result->Err_0->Sysfs_0@, path + ": "@),
{
    match file {
        Ok(raw) => {
            law_an_attribute_is_its_digits(path, raw@, max, result);
            law_numbers_are_read_exactly(trim(raw@), 16, max as nat);
        },
        Err(reason) => {
            let message = result->Err_0->Sysfs_0@;
            assert(message.take((path + ": "@).len() as int) =~= path + ": "@);
        },
    }
}

/// A walk of any tree reads the directory `k` exactly where `k` is the first of
/// the first twelve that holds `bInterfaceNumber` and its parent holds
/// `idVendor`; otherwise the node has no USB parent.
pub proof fn law_the_walk_reads_the_first_interface(tree: Ancestry, k: usize)
    ensures
        walked_in(tree, Walk::Interface(0), 13) == Walk::Read(k) <==> {
            &&& k < 12
            &&& k + 1 < tree.depth
            &&& (tree.has_number)(k as nat)
            &&& forall|j: nat| j < k ==> !#[trigger] (tree.has_number)(j)
            &&& (tree.has_vendor)((k + 1) as nat)
        },
        walked_in(tree, Walk::Interface(0), 13) is Read || walked_in(
            tree,
            Walk::Interface(0),
            13,
        ) is NoUsbParent,
{
    law_a_walk_ends_at_the_nearest_usb_interface(tree);
    lemma_nearest(tree, 0, k as nat);
}

/// The nearest directory is the first that holds the attribute.
proof fn lemma_nearest(tree: Ancestry, n: nat, k: nat)
    requires
        n <= MAX_ANCESTOR_WALK,
    ensures
        nearest_interface(tree, n) is Some ==> n <= nearest_interface(tree, n)->0 < 12,
        nearest_interface(tree, n) == Some(k) <==> {
            &&& n <= k < 12
            &&& k < tree.depth
            &&& (tree.has_number)(k)
            &&& forall|j: nat| n <= j < k ==> !#[trigger] (tree.has_number)(j)
        },
    decreases MAX_ANCESTOR_WALK - n,
{
    if n < MAX_ANCESTOR_WALK && n < tree.depth && !(tree.has_number)(n) {
        lemma_nearest(tree, n + 1, k);
        if nearest_interface(tree, n) == Some(k) {
            assert forall|j: nat| n <= j < k implies !#[trigger] (tree.has_number)(j) by {
                if j > n {
                    assert(n + 1 <= j);
                }
            }
        }
    }
}

}

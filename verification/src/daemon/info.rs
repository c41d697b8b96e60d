//! `razerd info`: which devices are read, what is said of each, and how the run
//! ends.
use vstd::prelude::*;
use vstd::string::StringExecFns;

use crate::devices::table::{entry_for, lookup, DeviceEntry};
use crate::hid::enumerate::HidrawNode;
use crate::hid::error::HidError;
use crate::hid::laws::{copies, law_a_transaction_sends_nothing_else};
use crate::hid::mock::{MockClock, MockTransport};
use crate::hid::session::{hidraw_buffer, Clock, Session};
use crate::hid::transport::FeatureTransport;
use crate::proto::error::ProtoError;
use crate::proto::report::{DeviceMode, RazerReport, Status};
use crate::text::laws::law_contained_means_cut_out;
use crate::text::{contains, decimal, push_decimal, push_upper_hex, starts_with, upper_hex};

verus! {

// ---------------------------------------------------------------------------
// Which devices
// ---------------------------------------------------------------------------

/// The supported product ids of the nodes, each once, in order of first
/// appearance.
pub open spec fn supported(nodes: Seq<HidrawNode>) -> Seq<u16>
    decreases nodes.len(),
{
    if nodes.len() == 0 {
        Seq::empty()
    } else {
        let rest = supported(nodes.drop_last());
        let pid = nodes.last().info.product_id;
        if entry_for(pid) is Some && !rest.contains(pid) {
            rest.push(pid)
        } else {
            rest
        }
    }
}

/// The supported product ids of the nodes, each once, in order of first
/// appearance.
pub fn supported_pids(nodes: &Vec<HidrawNode>) -> (pids: Vec<u16>)
    ensures
        pids@ == supported(nodes@),
{
    let mut pids: Vec<u16> = Vec::new();
    let mut i: usize = 0;
    assert(nodes@.take(0) =~= Seq::empty());
    while i < nodes.len()
        invariant
            0 <= i <= nodes@.len(),
            pids@ == supported(nodes@.take(i as int)),
        decreases nodes@.len() - i,
    {
        assert(nodes@.take(i + 1).drop_last() =~= nodes@.take(i as int));
        assert(nodes@.take(i + 1).last() == nodes@[i as int]);
        let pid: u16 = nodes[i].info.product_id;
        if lookup(pid).is_some() && !holds(&pids, pid) {
            pids.push(pid);
        }
        i = i + 1;
    }
    assert(nodes@.take(i as int) =~= nodes@);
    pids
}

/// Whether `pid` is among `pids`.
fn holds(pids: &Vec<u16>, pid: u16) -> (r: bool)
    ensures
        r == pids@.contains(pid),
{
    let mut i: usize = 0;
    while i < pids.len()
        invariant
            0 <= i <= pids@.len(),
            forall|k: int| 0 <= k < i ==> pids@[k] != pid,
        decreases pids@.len() - i,
    {
        if pids[i] == pid {
            return true;
        }
        i = i + 1;
    }
    false
}

/// No product id is read twice, every one that is read is in the device table,
/// and every supported node's is read.
pub proof fn law_each_supported_device_is_read_once(nodes: Seq<HidrawNode>)
    ensures
        supported(nodes).no_duplicates(),
        forall|i: int|
            0 <= i < supported(nodes).len() ==> entry_for(#[trigger] supported(nodes)[i]) is Some,
        forall|k: int|
            0 <= k < nodes.len() && entry_for((#[trigger] nodes[k]).info.product_id) is Some
                ==> supported(nodes).contains(nodes[k].info.product_id),
    decreases nodes.len(),
{
    if nodes.len() > 0 {
        let front = nodes.drop_last();
        law_each_supported_device_is_read_once(front);
        let rest = supported(front);
        let pid = nodes.last().info.product_id;
        assert forall|k: int|
            0 <= k < nodes.len() && entry_for((#[trigger] nodes[k]).info.product_id)
                is Some implies supported(nodes).contains(nodes[k].info.product_id) by {
            let p = nodes[k].info.product_id;
            if k < front.len() {
                assert(front[k] == nodes[k]);
                assert(rest.contains(p));
                let j = choose|j: int| 0 <= j < rest.len() && rest[j] == p;
                assert(supported(nodes)[j] == p);
            } else if !rest.contains(pid) {
                assert(supported(nodes).last() == pid);
            }
        }
    }
}

// ---------------------------------------------------------------------------
// One device
// ---------------------------------------------------------------------------

/// What is reported for one device, decided from its first probe.
#[derive(Debug, PartialEq, Eq)]
pub enum Probe {
    /// The device answered with its firmware version.
    Firmware(u8, u8),
    /// A wireless receiver that is present but has no device behind it: a
    /// state, not an error.
    ReceiverIdle,
    /// Anything else, rendered for display.
    Failed(String),
}

/// Whether a firmware read says that the receiver is idle.
pub open spec fn says_idle(result: Result<(u8, u8), HidError>) -> bool {
    result is Err && result->Err_0.status() == Some(Status::Timeout)
}

impl Probe {
    /// Tell an idle receiver apart from a broken device.
    pub fn classify(result: Result<(u8, u8), HidError>) -> (probe: Self)
        ensures
            match result {
                Ok((major, minor)) => probe == Probe::Firmware(major, minor),
                Err(e) => if e.status() == Some(Status::Timeout) {
                    probe is ReceiverIdle
                } else {
                    probe is Failed && probe->Failed_0@ == e.message()
                },
            },
    {
        match result {
            Ok((major, minor)) => Probe::Firmware(major, minor),
            Err(e) => if e.is_receiver_idle() {
                Probe::ReceiverIdle
            } else {
                Probe::Failed(e.to_string())
            },
        }
    }
}

/// What is printed of a firmware read.
pub open spec fn firmware_text(result: Result<(u8, u8), HidError>) -> Seq<char> {
    match result {
        Ok((major, minor)) => "  firmware        v"@ + decimal(major as nat) + "."@ + decimal(
            minor as nat,
        ) + "\n"@,
        Err(e) => if e.status() == Some(Status::Timeout) {
            "  state           no device connected (receiver idle)\n                  dongle answered 0x04 TIMEOUT; the mouse is\n                  elsewhere — on its cable, or powered off\n"@
        } else {
            "  firmware        ERROR: "@ + e.message() + "\n"@
        },
    }
}

/// What is printed of a serial number read.
pub open spec fn serial_text(result: Result<String, HidError>) -> Seq<char> {
    match result {
        Ok(serial) => "  serial          "@ + serial@ + "\n"@,
        Err(e) => "  serial          ERROR: "@ + e.message() + "\n"@,
    }
}

/// What a mode byte is called.
pub open spec fn mode_label(mode: u8) -> Seq<char> {
    if mode == 0x00 {
        "normal (device)"@
    } else if mode == 0x03 {
        "driver"@
    } else {
        "unknown"@
    }
}

/// What is printed of an operating mode read.
pub open spec fn mode_text(result: Result<(u8, u8), HidError>) -> Seq<char> {
    match result {
        Ok((mode, param)) => "  device mode     0x"@ + upper_hex(mode as nat, 2) + " "@
            + mode_label(mode) + " (param 0x"@ + upper_hex(param as nat, 2) + ")\n"@,
        Err(e) => "  device mode     ERROR: "@ + e.message() + "\n"@,
    }
}

/// Appends what is printed of a probe.
fn push_probe(out: &mut String, probe: &Probe)
    ensures
        match *probe {
            Probe::Firmware(major, minor) => final(out)@ == old(out)@ + ("  firmware        v"@
                + decimal(major as nat) + "."@ + decimal(minor as nat) + "\n"@),
            Probe::ReceiverIdle => final(out)@ == old(out)@
                + "  state           no device connected (receiver idle)\n                  dongle answered 0x04 TIMEOUT; the mouse is\n                  elsewhere — on its cable, or powered off\n"@,
            Probe::Failed(message) => final(out)@ == old(out)@ + ("  firmware        ERROR: "@
                + message@ + "\n"@),
        },
{
    match probe {
        Probe::Firmware(major, minor) => {
            out.append("  firmware        v");
            push_decimal(out, *major as u64);
            out.append(".");
            push_decimal(out, *minor as u64);
            out.append("\n");
            assert(out@ =~= old(out)@ + ("  firmware        v"@ + decimal(*major as nat) + "."@
                + decimal(*minor as nat) + "\n"@));
        },
        Probe::ReceiverIdle => {
            out.append(
                "  state           no device connected (receiver idle)\n                  dongle answered 0x04 TIMEOUT; the mouse is\n                  elsewhere — on its cable, or powered off\n",
            );
        },
        Probe::Failed(message) => {
            out.append("  firmware        ERROR: ");
            out.append(message.as_str());
            out.append("\n");
            assert(out@ =~= old(out)@ + ("  firmware        ERROR: "@ + message@ + "\n"@));
        },
    }
}

/// Appends what is printed of a serial number read.
fn push_serial(out: &mut String, result: &Result<String, HidError>)
    ensures
        final(out)@ == old(out)@ + serial_text(*result),
{
    match result {
        Ok(serial) => {
            out.append("  serial          ");
            out.append(serial.as_str());
        },
        Err(e) => {
            out.append("  serial          ERROR: ");
            let message = e.to_string();
            out.append(message.as_str());
        },
    }
    out.append("\n");
    assert(out@ =~= old(out)@ + serial_text(*result));
}

/// Appends what is printed of an operating mode read.
fn push_mode(out: &mut String, result: &Result<(u8, u8), HidError>)
    ensures
        final(out)@ == old(out)@ + mode_text(*result),
{
    match result {
        Ok(read) => {
            let mode: u8 = read.0;
            let param: u8 = read.1;
            out.append("  device mode     0x");
            push_upper_hex(out, mode as u64, 2);
            out.append(" ");
            if mode == 0x00 {
                out.append("normal (device)");
            } else if mode == 0x03 {
                out.append("driver");
            } else {
                out.append("unknown");
            }
            out.append(" (param 0x");
            push_upper_hex(out, param as u64, 2);
            out.append(")\n");
        },
        Err(e) => {
            out.append("  device mode     ERROR: ");
            let message = e.to_string();
            out.append(message.as_str());
            out.append("\n");
        },
    }
    assert(out@ =~= old(out)@ + mode_text(*result));
}

/// What an interrogation came to.
#[derive(Debug)]
pub struct Interrogation {
    /// Whether the device is a receiver with nothing behind it.
    pub idle: bool,
    /// What is printed.
    pub text: String,
}

/// Whether an interrogation may take a session from `before` to `after`: a
/// firmware read and, unless the receiver is idle, a serial number read and a
/// mode read.
pub open spec fn interrogates<'a, T: FeatureTransport, C: Clock>(
    before: Session<'a, T, C>,
    after: Session<'a, T, C>,
    idle: bool,
    text: Seq<char>,
) -> bool {
    exists|second: Session<'a, T, C>, firmware: Result<(u8, u8), HidError>|
        {
            &&& #[trigger] before.reads_firmware_version(&second, firmware)
            &&& idle == says_idle(firmware)
            &&& if idle {
                &&& after.same_as(&second)
                &&& text == firmware_text(firmware)
            } else {
                exists|
                    third: Session<'a, T, C>,
                    serial: Result<String, HidError>,
                    mode: Result<(u8, u8), HidError>,
                |
                    {
                        &&& #[trigger] second.reads_serial(&third, serial)
                        &&& #[trigger] third.reads_device_mode(&after, mode)
                        &&& text == firmware_text(firmware) + serial_text(serial) + mode_text(mode)
                    }
            }
        }
}

/// Read-only interrogation of one device.
///
/// The firmware version is read first. A receiver that answers timeout has no
/// device behind it and is asked nothing more; anything else is also asked for
/// its serial number and its mode, whatever became of the first read.
pub fn interrogate<'a, T: FeatureTransport, C: Clock>(session: &mut Session<'a, T, C>) -> (found:
    Interrogation)
    ensures
        interrogates(*old(session), *final(session), found.idle, found.text@),
        *final(final(session).line()) == *final(old(session).line()),
        *final(final(session).ticker()) == *final(old(session).ticker()),
{
    let firmware = session.firmware_version();
    let ghost first = firmware;
    let ghost second = *session;
    let mut out = String::new();
    let probe = Probe::classify(firmware);
    push_probe(&mut out, &probe);
    assert(out@ =~= firmware_text(first));
    match probe {
        Probe::ReceiverIdle => {
            assert(old(session).reads_firmware_version(&second, first));
            return Interrogation { idle: true, text: out };
        },
        _ => {},
    }
    let serial = session.serial();
    let ghost third = *session;
    push_serial(&mut out, &serial);
    let mode = session.get_device_mode();
    push_mode(&mut out, &mode);
    assert(old(session).reads_firmware_version(&second, first));
    assert(second.reads_serial(&third, serial));
    assert(third.reads_device_mode(&*session, mode));
    Interrogation { idle: false, text: out }
}

/// What is printed above a device.
pub open spec fn heading_text(entry: DeviceEntry) -> Seq<char> {
    "\n"@ + entry.name@ + " (0x"@ + upper_hex(entry.pid as nat, 4) + ")\n"@
}

/// What is printed above a device.
pub fn heading(entry: &DeviceEntry) -> (text: String)
    ensures
        text@ == heading_text(*entry),
{
    let mut out = "\n".to_owned();
    out.append(entry.name);
    out.append(" (0x");
    push_upper_hex(&mut out, entry.pid as u64, 4);
    out.append(")\n");
    out
}

/// What is printed of the node a device is reached through.
pub open spec fn node_text(node: HidrawNode, entry: DeviceEntry) -> Seq<char> {
    "  node            "@ + node.path@ + "\n  usb interface   "@ + decimal(
        node.info.interface_number as nat,
    ) + "\n  transaction id  0x"@ + upper_hex(entry.transaction_id as nat, 2) + "\n"@
}

/// What is printed of the node a device is reached through.
pub fn node_lines(node: &HidrawNode, entry: &DeviceEntry) -> (text: String)
    ensures
        text@ == node_text(*node, *entry),
{
    let mut out = "  node            ".to_owned();
    out.append(node.path.as_str());
    out.append("\n  usb interface   ");
    push_decimal(&mut out, node.info.interface_number as u64);
    out.append("\n  transaction id  0x");
    push_upper_hex(&mut out, entry.transaction_id as u64, 2);
    out.append("\n");
    out
}

/// What is printed of a device whose control interface could not be found.
pub open spec fn not_located_text(e: HidError) -> Seq<char> {
    "  ERROR locating the control interface: "@ + e.message()
        + "\n  (unplugged mid-run? try again)\n"@
}

/// What is printed of a device whose control interface could not be found.
pub fn not_located(e: &HidError) -> (text: String)
    ensures
        text@ == not_located_text(*e),
{
    let mut out = "  ERROR locating the control interface: ".to_owned();
    let message = e.to_string();
    out.append(message.as_str());
    out.append("\n  (unplugged mid-run? try again)\n");
    out
}

/// What is printed of a node that could not be opened.
pub open spec fn not_opened_text(path: Seq<char>, e: HidError) -> Seq<char> {
    "  ERROR opening "@ + path + ": "@ + e.message()
        + "\n  (permissions? install udev/60-razer-rust.rules — see `razerd` usage)\n"@
}

/// What is printed of a node that could not be opened.
pub fn not_opened(path: &str, e: &HidError) -> (text: String)
    ensures
        text@ == not_opened_text(path@, *e),
{
    let mut out = "  ERROR opening ".to_owned();
    out.append(path);
    out.append(": ");
    let message = e.to_string();
    out.append(message.as_str());
    out.append("\n  (permissions? install udev/60-razer-rust.rules — see `razerd` usage)\n");
    out
}

// ---------------------------------------------------------------------------
// The run
// ---------------------------------------------------------------------------

/// What became of one device.
#[derive(Debug, Clone, Copy, PartialEq, Eq, Structural)]
pub enum Outcome {
    /// It could not be located or opened.
    Failed,
    /// It was opened and read.
    Opened,
    /// It was opened and is a receiver with nothing behind it.
    Idle,
}

/// How far the run got with one device.
#[derive(Debug)]
pub enum Visit {
    /// Its control interface could not be found.
    NotLocated(HidError),
    /// Its node could not be opened, or is another device by now.
    NotOpened {
        /// The node.
        path: String,
        /// What went wrong.
        error: HidError,
    },
    /// It was opened and interrogated.
    Interrogated(Interrogation),
}

impl Visit {
    /// What became of the device.
    pub open spec fn came_to(self) -> Outcome {
        match self {
            Visit::NotLocated(_) => Outcome::Failed,
            Visit::NotOpened { .. } => Outcome::Failed,
            Visit::Interrogated(found) => if found.idle {
                Outcome::Idle
            } else {
                Outcome::Opened
            },
        }
    }

    /// What is printed of the visit.
    pub open spec fn printed(self) -> Seq<char> {
        match self {
            Visit::NotLocated(e) => not_located_text(e),
            Visit::NotOpened { path, error } => not_opened_text(path@, error),
            Visit::Interrogated(found) => found.text@,
        }
    }

    /// What became of the device: a device that could not be located or opened
    /// failed, and one that answered was opened, idle or not.
    pub fn outcome(&self) -> (outcome: Outcome)
        ensures
            outcome == self.came_to(),
    {
        match self {
            Visit::NotLocated(_) => Outcome::Failed,
            Visit::NotOpened { .. } => Outcome::Failed,
            Visit::Interrogated(found) => if found.idle {
                Outcome::Idle
            } else {
                Outcome::Opened
            },
        }
    }

    /// What is printed of the visit.
    pub fn text(&self) -> (text: String)
        ensures
            text@ == self.printed(),
    {
        match self {
            Visit::NotLocated(e) => not_located(e),
            Visit::NotOpened { path, error } => not_opened(path.as_str(), error),
            Visit::Interrogated(found) => found.text.clone(),
        }
    }
}

/// How many devices were opened, failed, or were found idle.
#[derive(Debug, Clone, Copy, PartialEq, Eq, Structural)]
pub struct Tally {
    /// Devices opened, idle receivers included.
    pub opened: usize,
    /// Devices that could not be located or opened.
    pub failed: usize,
    /// Receivers with no device connected.
    pub idle: usize,
}

/// How many outcomes of a kind there are.
pub open spec fn outcomes_of(outcomes: Seq<Outcome>, kind: Outcome) -> nat
    decreases outcomes.len(),
{
    if outcomes.len() == 0 {
        0
    } else {
        outcomes_of(outcomes.drop_last(), kind) + (if outcomes.last() == kind {
            1nat
        } else {
            0nat
        })
    }
}

/// Counts what became of the devices.
///
/// An idle receiver counts as opened: it is present and answering.
pub fn tally(outcomes: &Vec<Outcome>) -> (t: Tally)
    ensures
        t.failed == outcomes_of(outcomes@, Outcome::Failed),
        t.idle == outcomes_of(outcomes@, Outcome::Idle),
        t.opened == outcomes_of(outcomes@, Outcome::Opened) + outcomes_of(
            outcomes@,
            Outcome::Idle,
        ),
{
    let mut t = Tally { opened: 0, failed: 0, idle: 0 };
    let mut i: usize = 0;
    assert(outcomes@.take(0) =~= Seq::empty());
    while i < outcomes.len()
        invariant
            0 <= i <= outcomes@.len(),
            t.opened + t.failed <= i,
            t.idle <= i,
            t.failed == outcomes_of(outcomes@.take(i as int), Outcome::Failed),
            t.idle == outcomes_of(outcomes@.take(i as int), Outcome::Idle),
            t.opened == outcomes_of(outcomes@.take(i as int), Outcome::Opened) + outcomes_of(
                outcomes@.take(i as int),
                Outcome::Idle,
            ),
        decreases outcomes@.len() - i,
    {
        assert(outcomes@.take(i + 1).drop_last() =~= outcomes@.take(i as int));
        assert(outcomes@.take(i + 1).last() == outcomes@[i as int]);
        match outcomes[i] {
            Outcome::Failed => {
                t.failed = t.failed + 1;
            },
            Outcome::Opened => {
                t.opened = t.opened + 1;
            },
            Outcome::Idle => {
                t.opened = t.opened + 1;
                t.idle = t.idle + 1;
            },
        }
        i = i + 1;
    }
    assert(outcomes@.take(i as int) =~= outcomes@);
    t
}

/// What is printed when there is nothing to read.
pub fn nothing_supported() -> (text: &'static str)
    ensures
        text@
            == "No supported Razer devices found.\n(`razerd list` shows every Razer hidraw node, supported or not.)\n"@,
{
    "No supported Razer devices found.\n(`razerd list` shows every Razer hidraw node, supported or not.)\n"
}

impl Tally {
    /// What is printed at the end of the run.
    pub open spec fn summary_text(self) -> Seq<char> {
        "\nAll commands above were GET-class reads. Nothing was written.\n"@ + (if self.idle > 0 {
            decimal(self.idle as nat)
                + " receiver(s) had no device connected; that is a state, not an error.\n"@
        } else {
            Seq::empty()
        })
    }

    /// What is printed at the end of the run.
    pub fn summary(&self) -> (text: String)
        ensures
            text@ == self.summary_text(),
    {
        let mut out =
            "\nAll commands above were GET-class reads. Nothing was written.\n".to_owned();
        if self.idle > 0 {
            push_decimal(&mut out, self.idle as u64);
            out.append(" receiver(s) had no device connected; that is a state, not an error.\n");
        }
        assert(out@ =~= self.summary_text());
        out
    }

    /// Whether the run succeeded: it failed only if no device at all was opened
    /// while at least one should have been.
    ///
    /// # Errors
    ///
    /// What to say about the failure.
    pub fn verdict(&self) -> (result: Result<(), String>)
        ensures
            match result {
                Ok(_) => self.opened > 0 || self.failed == 0,
                Err(message) => self.opened == 0 && self.failed > 0 && message@
                    == "could not open any of the "@ + decimal(self.failed as nat)
                    + " supported device(s)"@,
            },
    {
        if self.opened == 0 && self.failed > 0 {
            let mut message = "could not open any of the ".to_owned();
            push_decimal(&mut message, self.failed as u64);
            message.append(" supported device(s)");
            return Err(message);
        }
        Ok(())
    }
}

// ---------------------------------------------------------------------------
// Read-only
// ---------------------------------------------------------------------------

/// Whether `after` is `before` with nothing but reads sent since: byte 7 of a
/// report is the command id, and bit 7 of that marks a read.
pub open spec fn only_reads_added(before: Seq<Seq<u8>>, after: Seq<Seq<u8>>) -> bool {
    &&& before.len() <= after.len()
    &&& after.take(before.len() as int) == before
    &&& forall|i: int| before.len() <= i < after.len() ==> (#[trigger] after[i])[8] >= 0x80
}

/// One read command adds nothing but reads.
proof fn lemma_a_read_adds_reads<'a>(
    session: Session<'a, MockTransport, MockClock>,
    request: RazerReport,
    after: Session<'a, MockTransport, MockClock>,
    result: Result<RazerReport, HidError>,
)
    requires
        session.transacts(request, &after, result),
        request.command_id >= 0x80,
    ensures
        only_reads_added(session.device().sent_buffers(), after.device().sent_buffers()),
{
    let before = session.device().sent_buffers();
    let buffer = hidraw_buffer(request, session.tid());
    let n = law_a_transaction_sends_nothing_else(session, request, after, result);
    assert(buffer[8] == request.command_id);
    assert((before + copies(buffer, n)).take(before.len() as int) =~= before);
}

/// Reads after reads are reads.
proof fn lemma_reads_add_up(a: Seq<Seq<u8>>, b: Seq<Seq<u8>>, c: Seq<Seq<u8>>)
    requires
        only_reads_added(a, b),
        only_reads_added(b, c),
    ensures
        only_reads_added(a, c),
{
    assert(c.take(a.len() as int) =~= c.take(b.len() as int).take(a.len() as int));
    assert forall|i: int| a.len() <= i < c.len() implies (#[trigger] c[i])[8] >= 0x80 by {
        if i < b.len() {
            assert(c.take(b.len() as int)[i] == c[i]);
            assert(b[i][8] >= 0x80);
        }
    }
}

/// An interrogation is read-only: every report it sends is a GET-class command.
pub proof fn law_an_interrogation_only_reads<'a>(
    before: Session<'a, MockTransport, MockClock>,
    after: Session<'a, MockTransport, MockClock>,
    idle: bool,
    text: Seq<char>,
)
    requires
        interrogates(before, after, idle, text),
    ensures
        only_reads_added(before.device().sent_buffers(), after.device().sent_buffers()),
{
    let (second, firmware) = choose|
        second: Session<'a, MockTransport, MockClock>,
        firmware: Result<(u8, u8), HidError>,
    |
        {
            &&& #[trigger] before.reads_firmware_version(&second, firmware)
            &&& idle == says_idle(firmware)
            &&& if idle {
                &&& after.same_as(&second)
                &&& text == firmware_text(firmware)
            } else {
                exists|
                    third: Session<'a, MockTransport, MockClock>,
                    serial: Result<String, HidError>,
                    mode: Result<(u8, u8), HidError>,
                |
                    {
                        &&& #[trigger] second.reads_serial(&third, serial)
                        &&& #[trigger] third.reads_device_mode(&after, mode)
                        &&& text == firmware_text(firmware) + serial_text(serial) + mode_text(mode)
                    }
            }
        };
    let s1 = before.device().sent_buffers();
    let s2 = second.device().sent_buffers();
    assert(s1.take(s1.len() as int) =~= s1);
    if before.supports(0x02) {
        let (request, reply) = choose|request: RazerReport, reply: Result<RazerReport, HidError>|
            request.is_command(0x00, 0x81, 0x02, Seq::empty()) && #[trigger] before.transacts(
                request,
                &second,
                reply,
            );
        lemma_a_read_adds_reads(before, request, second, reply);
    }
    if !idle {
        let (third, serial, mode) = choose|
            third: Session<'a, MockTransport, MockClock>,
            serial: Result<String, HidError>,
            mode: Result<(u8, u8), HidError>,
        |
            {
                &&& #[trigger] second.reads_serial(&third, serial)
                &&& #[trigger] third.reads_device_mode(&after, mode)
                &&& text == firmware_text(firmware) + serial_text(serial) + mode_text(mode)
            };
        let s3 = third.device().sent_buffers();
        assert(s2.take(s2.len() as int) =~= s2);
        assert(s3.take(s3.len() as int) =~= s3);
        if second.supports(0x04) {
            let (request, reply) = choose|
                request: RazerReport,
                reply: Result<RazerReport, HidError>,
            |
                request.is_command(0x00, 0x82, 0x16, Seq::empty()) && #[trigger] second.transacts(
                    request,
                    &third,
                    reply,
                );
            lemma_a_read_adds_reads(second, request, third, reply);
        }
        if third.supports(0x01) {
            let (request, reply) = choose|
                request: RazerReport,
                reply: Result<RazerReport, HidError>,
            |
                request.is_command(0x00, 0x84, 0x02, Seq::empty()) && #[trigger] third.transacts(
                    request,
                    &after,
                    reply,
                );
            lemma_a_read_adds_reads(third, request, after, reply);
        }
        lemma_reads_add_up(s1, s2, s3);
        lemma_reads_add_up(s1, s3, after.device().sent_buffers());
    }
}

// ---------------------------------------------------------------------------
// What is said
// ---------------------------------------------------------------------------

/// Devices are read in the order in which they first appear: a node adds its
/// product at the end, and only where it is supported and new.
pub proof fn law_devices_are_read_in_order_of_appearance(nodes: Seq<HidrawNode>, node: HidrawNode)
    ensures
        supported(Seq::empty()) == Seq::<u16>::empty(),
        entry_for(node.info.product_id) is None ==> supported(nodes.push(node)) == supported(nodes),
        (exists|k: int|
            0 <= k < nodes.len() && (#[trigger] nodes[k]).info.product_id == node.info.product_id)
            ==> supported(nodes.push(node)) == supported(nodes),
        entry_for(node.info.product_id) is Some && (forall|k: int|
            0 <= k < nodes.len() ==> (#[trigger] nodes[k]).info.product_id != node.info.product_id)
            ==> supported(nodes.push(node)) == supported(nodes).push(node.info.product_id),
{
    let pid = node.info.product_id;
    assert(nodes.push(node).drop_last() =~= nodes);
    law_each_supported_device_is_read_once(nodes);
    if supported(nodes).contains(pid) {
        lemma_supported_stems_from_a_node(nodes, pid);
    }
    if exists|k: int| 0 <= k < nodes.len() && (#[trigger] nodes[k]).info.product_id == pid {
        let k = choose|k: int| 0 <= k < nodes.len() && (#[trigger] nodes[k]).info.product_id == pid;
        assert(entry_for(pid) is Some ==> supported(nodes).contains(nodes[k].info.product_id));
    }
}

/// A product that is read belongs to a node.
proof fn lemma_supported_stems_from_a_node(nodes: Seq<HidrawNode>, pid: u16)
    requires
        supported(nodes).contains(pid),
    ensures
        exists|k: int| 0 <= k < nodes.len() && (#[trigger] nodes[k]).info.product_id == pid,
    decreases nodes.len(),
{
    let front = nodes.drop_last();
    let n = nodes.len() - 1;
    if supported(front).contains(pid) {
        lemma_supported_stems_from_a_node(front, pid);
        let k = choose|k: int| 0 <= k < front.len() && (#[trigger] front[k]).info.product_id == pid;
        assert(nodes[k].info.product_id == pid);
    } else {
        let j = choose|j: int| 0 <= j < supported(nodes).len() && supported(nodes)[j] == pid;
        if j < supported(front).len() {
            assert(supported(front)[j] == pid);
        }
        assert(nodes[n].info.product_id == pid);
    }
}

/// Only a device that answered timeout, at once or at the end of its retries, is
/// an idle receiver; every other error is reported as one, and a version never.
pub proof fn law_only_a_timeout_means_idle(result: Result<(u8, u8), HidError>)
    ensures
        says_idle(result) <==> {
            ||| result == Err::<(u8, u8), HidError>(
                HidError::Proto(ProtoError::DeviceStatus(Status::Timeout)),
            )
            ||| result == Err::<(u8, u8), HidError>(
                HidError::RetriesExhausted { last: ProtoError::DeviceStatus(Status::Timeout) },
            )
        },
{
}

/// A firmware version is printed as its two numbers, and every error but an idle
/// receiver's with its message.
pub proof fn law_the_firmware_line(result: Result<(u8, u8), HidError>)
    ensures
        result is Ok ==> firmware_text(result) == "  firmware        v"@ + decimal(
            result->Ok_0.0 as nat,
        ) + "."@ + decimal(result->Ok_0.1 as nat) + "\n"@,
        result is Err && !says_idle(result) ==> firmware_text(result)
            == "  firmware        ERROR: "@ + result->Err_0.message() + "\n"@,
        says_idle(result) ==> firmware_text(result)
            == "  state           no device connected (receiver idle)\n                  dongle answered 0x04 TIMEOUT; the mouse is\n                  elsewhere — on its cable, or powered off\n"@,
{
}

/// A serial number is printed whole, and an error with its message.
pub proof fn law_the_serial_line(result: Result<String, HidError>)
    ensures
        result is Ok ==> serial_text(result) == "  serial          "@ + result->Ok_0@ + "\n"@,
        result is Err ==> serial_text(result) == "  serial          ERROR: "@
            + result->Err_0.message() + "\n"@,
{
}

/// A mode is printed as its two bytes, with a name where the byte is that of a
/// mode, and an error with its message.
pub proof fn law_the_mode_line(result: Result<(u8, u8), HidError>, mode: DeviceMode)
    ensures
        result is Ok ==> starts_with(
            mode_text(result),
            "  device mode     0x"@ + upper_hex(result->Ok_0.0 as nat, 2) + " "@,
        ),
        result is Ok ==> contains(
            mode_text(result),
            " "@ + mode_label(result->Ok_0.0) + " (param 0x"@ + upper_hex(
                result->Ok_0.1 as nat,
                2,
            ) + ")\n"@,
        ),
        mode_label(mode.byte()) == (match mode {
            DeviceMode::Normal => "normal (device)"@,
            DeviceMode::Driver => "driver"@,
        }),
        result is Ok && result->Ok_0.0 != 0 && result->Ok_0.0 != 3 ==> mode_label(result->Ok_0.0)
            == "unknown"@,
        result is Err ==> mode_text(result) == "  device mode     ERROR: "@
            + result->Err_0.message() + "\n"@,
{
    if result is Ok {
        lemma_mode_line_pieces(
            "  device mode     0x"@,
            upper_hex(result->Ok_0.0 as nat, 2),
            " "@,
            mode_label(result->Ok_0.0),
            " (param 0x"@,
            upper_hex(result->Ok_0.1 as nat, 2),
            ")\n"@,
        );
    }
}

/// The pieces of a mode line.
proof fn lemma_mode_line_pieces(
    a: Seq<char>,
    b: Seq<char>,
    c: Seq<char>,
    d: Seq<char>,
    e: Seq<char>,
    f: Seq<char>,
    g: Seq<char>,
)
    ensures
        starts_with(a + b + c + d + e + f + g, a + b + c),
        contains(a + b + c + d + e + f + g, c + d + e + f + g),
{
    assert((a + b + c + d + e + f + g).take((a + b + c).len() as int) =~= a + b + c);
    assert(a + b + c + d + e + f + g =~= (a + b) + (c + d + e + f + g) + Seq::empty());
    law_contained_means_cut_out(a + b, c + d + e + f + g, Seq::empty());
}

/// A device is introduced by its name and product id, then by the node, the
/// interface and the transaction id it is reached with.
pub proof fn law_the_device_is_introduced(entry: DeviceEntry, node: HidrawNode)
    ensures
        heading_text(entry) == "\n"@ + entry.name@ + " (0x"@ + upper_hex(entry.pid as nat, 4)
            + ")\n"@,
        starts_with(node_text(node, entry), "  node            "@ + node.path@),
        contains(
            node_text(node, entry),
            "\n  usb interface   "@ + decimal(node.info.interface_number as nat)
                + "\n  transaction id  0x"@ + upper_hex(entry.transaction_id as nat, 2) + "\n"@,
        ),
{
    lemma_mode_line_pieces(
        Seq::empty(),
        "  node            "@ + node.path@,
        "\n  usb interface   "@,
        decimal(node.info.interface_number as nat),
        "\n  transaction id  0x"@,
        upper_hex(entry.transaction_id as nat, 2),
        "\n"@,
    );
    let front = "  node            "@ + node.path@;
    assert(Seq::<char>::empty() + front =~= front);
    assert(node_text(node, entry).take(front.len() as int) =~= front);
}

/// A device that could not be located or opened is reported with what went
/// wrong, and one that answered with what it said.
pub proof fn law_every_visit_is_told(visit: Visit)
    ensures
        visit is NotLocated ==> {
            &&& visit.came_to() == Outcome::Failed
            &&& visit.printed() == "  ERROR locating the control interface: "@
                + visit->NotLocated_0.message() + "\n  (unplugged mid-run? try again)\n"@
        },
        visit is NotOpened ==> {
            &&& visit.came_to() == Outcome::Failed
            &&& visit.printed() == "  ERROR opening "@ + visit->path@ + ": "@
                + visit->error.message()
                + "\n  (permissions? install udev/60-razer-rust.rules — see `razerd` usage)\n"@
        },
        visit is Interrogated ==> {
            &&& visit.printed() == visit->Interrogated_0.text@
            &&& visit.came_to() == Outcome::Idle <==> visit->Interrogated_0.idle
            &&& visit.came_to() == Outcome::Opened <==> !visit->Interrogated_0.idle
        },
{
}

/// Outcomes are counted one by one: every device is counted under exactly one
/// outcome, and two runs add up.
pub proof fn law_every_outcome_is_counted_once(a: Seq<Outcome>, b: Seq<Outcome>, kind: Outcome)
    ensures
        outcomes_of(a, Outcome::Failed) + outcomes_of(a, Outcome::Opened) + outcomes_of(
            a,
            Outcome::Idle,
        ) == a.len(),
        outcomes_of(a + b, kind) == outcomes_of(a, kind) + outcomes_of(b, kind),
        outcomes_of(seq![kind], kind) == 1,
        outcomes_of(a, kind) > 0 <==> a.contains(kind),
    decreases a.len() + b.len(),
{
    reveal_with_fuel(outcomes_of, 2);
    if b.len() > 0 {
        assert((a + b).drop_last() =~= a + b.drop_last());
        assert((a + b).last() == b.last());
        law_every_outcome_is_counted_once(a, b.drop_last(), kind);
    } else {
        assert(a + b =~= a);
        if a.len() > 0 {
            let front = a.drop_last();
            law_every_outcome_is_counted_once(front, b, kind);
            if front.contains(kind) {
                let i = choose|i: int| 0 <= i < front.len() && front[i] == kind;
                assert(a[i] == kind);
            }
            if a.contains(kind) && a.last() != kind {
                let i = choose|i: int| 0 <= i < a.len() && a[i] == kind;
                assert(front[i] == kind);
            }
            if a.last() == kind {
                assert(a[a.len() - 1] == kind);
            }
        }
    }
}

/// The summary says that nothing was written, and counts the idle receivers
/// where there are any.
pub proof fn law_the_summary_counts_idle_receivers(t: Tally)
    ensures
        t.idle == 0 ==> t.summary_text()
            == "\nAll commands above were GET-class reads. Nothing was written.\n"@,
        t.idle > 0 ==> t.summary_text()
            == "\nAll commands above were GET-class reads. Nothing was written.\n"@ + (decimal(
            t.idle as nat,
        ) + " receiver(s) had no device connected; that is a state, not an error.\n"@),
{
    let front = "\nAll commands above were GET-class reads. Nothing was written.\n"@;
    assert(front + Seq::<char>::empty() =~= front);
}

}

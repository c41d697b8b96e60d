//! The device table: one entry per supported product id.
use vstd::prelude::*;

use crate::devices::capabilities::Capabilities;
use crate::time::Duration;

verus! {

/// The USB vendor id of Razer.
pub const VENDOR_ID: u16 = 0x1532;

/// Which physical class of device an entry describes.
#[derive(Debug, Clone, Copy, PartialEq, Eq, Structural)]
pub enum DeviceKind {
    /// A keyboard.
    Keyboard,
    /// A mouse.
    Mouse,
}

/// Which of the two polling-rate command families a device speaks.
#[derive(Debug, Clone, Copy, PartialEq, Eq, Structural)]
pub enum PollRateKind {
    /// Commands 0x00/0x05 and 0x00/0x85, which encode only 1000/500/125 Hz.
    Legacy,
    /// Commands 0x00/0x40 and 0x00/0xC0.
    V2,
}

/// A single device's protocol parameters and supported commands.
#[derive(Debug, Clone, Copy, PartialEq, Eq)]
pub struct DeviceEntry {
    /// USB product id.
    pub pid: u16,
    /// Human-readable model name.
    pub name: &'static str,
    /// Keyboard or mouse.
    pub kind: DeviceKind,
    /// The one transaction id used for every command to this device, byte 1 of
    /// the report.
    pub transaction_id: u8,
    /// The `bInterfaceNumber` of the control interface, which picks the
    /// `/dev/hidraw*` node to talk to.
    pub report_index: u8,
    /// The interface responses are read from; the same as `report_index` for
    /// every device here.
    pub response_index: u8,
    /// Mandatory delay after every SET_REPORT.
    pub wait: Duration,
    /// The commands the device supports.
    pub capabilities: Capabilities,
    /// LED byte to use for brightness and matrix-effect commands.
    pub default_led: u8,
    /// Which polling-rate commands the device speaks.
    pub poll_rate_kind: PollRateKind,
}

/// The Razer Basilisk V3 Pro on its cable (`wired`) or behind its receiver.
pub open spec fn basilisk_v3_pro(pid: u16, name: &'static str) -> DeviceEntry {
    DeviceEntry {
        pid,
        name,
        kind: DeviceKind::Mouse,
        transaction_id: 0x1F,
        report_index: 0x00,
        response_index: 0x00,
        wait: Duration { nanos: 31_000_000 },
        capabilities: Capabilities(0x3F),
        default_led: 0x00,
        poll_rate_kind: PollRateKind::Legacy,
    }
}

/// The Razer BlackWidow V4 Pro.
pub open spec fn blackwidow_v4_pro() -> DeviceEntry {
    DeviceEntry {
        pid: 0x028D,
        name: "Razer BlackWidow V4 Pro",
        kind: DeviceKind::Keyboard,
        transaction_id: 0x1F,
        report_index: 0x03,
        response_index: 0x03,
        wait: Duration { nanos: 600_000 },
        capabilities: Capabilities(0x3F),
        default_led: 0x05,
        poll_rate_kind: PollRateKind::V2,
    }
}

/// The complete table.
pub open spec fn table() -> Seq<DeviceEntry> {
    seq![
        basilisk_v3_pro(0x00AA, "Razer Basilisk V3 Pro (Wired)"),
        basilisk_v3_pro(0x00AB, "Razer Basilisk V3 Pro (Wireless)"),
        blackwidow_v4_pro(),
    ]
}

/// The entry for `pid`, if the table holds one.
pub open spec fn entry_for(pid: u16) -> Option<DeviceEntry> {
    if pid == 0x00AA {
        Some(table()[0])
    } else if pid == 0x00AB {
        Some(table()[1])
    } else if pid == 0x028D {
        Some(table()[2])
    } else {
        None
    }
}

/// The complete table. Exactly three entries, sorted ascending by pid.
pub fn all() -> (entries: &'static [DeviceEntry])
    ensures
        entries@ == table(),
{
    let entries: &'static [DeviceEntry] = &[
        DeviceEntry {
            pid: 0x00AA,
            name: "Razer Basilisk V3 Pro (Wired)",
            kind: DeviceKind::Mouse,
            transaction_id: 0x1F,
            report_index: 0x00,
            response_index: 0x00,
            wait: Duration { nanos: 31_000_000 },
            capabilities: Capabilities(0x3F),
            default_led: 0x00,
            poll_rate_kind: PollRateKind::Legacy,
        },
        DeviceEntry {
            pid: 0x00AB,
            name: "Razer Basilisk V3 Pro (Wireless)",
            kind: DeviceKind::Mouse,
            transaction_id: 0x1F,
            report_index: 0x00,
            response_index: 0x00,
            wait: Duration { nanos: 31_000_000 },
            capabilities: Capabilities(0x3F),
            default_led: 0x00,
            poll_rate_kind: PollRateKind::Legacy,
        },
        DeviceEntry {
            pid: 0x028D,
            name: "Razer BlackWidow V4 Pro",
            kind: DeviceKind::Keyboard,
            transaction_id: 0x1F,
            report_index: 0x03,
            response_index: 0x03,
            wait: Duration { nanos: 600_000 },
            capabilities: Capabilities(0x3F),
            default_led: 0x05,
            poll_rate_kind: PollRateKind::V2,
        },
    ];
    assert(entries@ =~= table());
    entries
}

/// Linear scan of [`all`]. Returns `None` for any pid not in the table.
pub fn lookup(pid: u16) -> (entry: Option<&'static DeviceEntry>)
    ensures
        match entry {
            Some(e) => entry_for(pid) == Some(*e),
            None => entry_for(pid) is None,
        },
{
    let entries = all();
    let mut i: usize = 0;
    while i < entries.len()
        invariant
            entries@ == table(),
            0 <= i <= entries@.len(),
            forall|k: int| 0 <= k < i ==> table()[k].pid != pid,
        decreases entries@.len() - i,
    {
        if entries[i].pid == pid {
            return Some(&entries[i]);
        }
        i = i + 1;
    }
    assert(table()[0].pid == 0x00AA && table()[1].pid == 0x00AB && table()[2].pid == 0x028D);
    None
}

/// The table holds exactly three entries, in strictly ascending order of pid,
/// and looking up a pid finds the one entry that carries it.
pub proof fn law_lookup_finds_exactly_the_table(pid: u16, i: int)
    ensures
        table().len() == 3,
        0 <= i < 3 ==> entry_for(table()[i].pid) == Some(table()[i]),
        entry_for(pid) is Some ==> table().contains(entry_for(pid)->0) && entry_for(pid)->0.pid
            == pid,
        forall|a: int, b: int| 0 <= a < b < 3 ==> table()[a].pid < table()[b].pid,
{
    assert(table()[0].pid == 0x00AA && table()[1].pid == 0x00AB && table()[2].pid == 0x028D);
}

/// Every entry uses transaction id 0x1F, reads its responses from the interface
/// it writes to, and supports all six command families.
pub proof fn law_every_entry_agrees_on_the_protocol(i: int)
    requires
        0 <= i < table().len(),
    ensures
        table()[i].transaction_id == 0x1F,
        table()[i].response_index == table()[i].report_index,
        table()[i].wait.nanos > 0,
        forall|flag: u32|
            flag < 6 ==> table()[i].capabilities.has(Capabilities(#[trigger] (1u32 << flag))),
{
    assert(forall|flag: u32|
        flag < 6 ==> 0x3F & #[trigger] (1u32 << flag) == (1u32 << flag)) by (bit_vector);
}

}

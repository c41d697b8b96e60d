//! In-memory stand-ins for sysfs, a device and a clock.
//!
//! Zero system calls. Each implements its trait with an exact specification, so
//! what a session or a search does over them is fully determined.
use std::collections::VecDeque;
use vstd::prelude::*;
use vstd::seq_lib::to_multiset_contains;

use crate::hid::enumerate::{
    finds, in_order, is_node, law_a_found_node_is_the_one_asked_for,
    law_every_razer_node_is_listed, lemma_name_le_antisymmetric, lemma_name_le_reflexive,
    lists_razer, name_le, passes_over, search_ends, HidrawNode,
};
use crate::hid::error::HidError;
use crate::hid::session::{hidraw_buffer, Clock};
use crate::hid::sysfs::{device_node, joined, SysfsSource, UsbInterfaceInfo};
use crate::hid::transport::{FeatureTransport, HIDRAW_BUF_LEN};
use crate::proto::report::{RazerReport, REPORT_LEN};
use crate::text::{same, texts};
use crate::time::Duration;

verus! {

// ---------------------------------------------------------------------------
// MockSysfs
// ---------------------------------------------------------------------------

/// A fake `/sys/class/hidraw` tree.
///
/// Nodes are listed in insertion order; [`crate::hid::find_device`] sorts them
/// itself.
#[derive(Debug, Clone)]
pub struct MockSysfs {
    /// `(name, Some(info))` for a USB node, `(name, None)` for one with no USB
    /// ancestor.
    nodes: Vec<(String, Option<UsbInterfaceInfo>)>,
}

/// A Razer interface.
pub open spec fn razer_interface(
    product_id: u16,
    interface_number: u8,
    interface_protocol: u8,
) -> UsbInterfaceInfo {
    UsbInterfaceInfo { vendor_id: 0x1532, product_id, interface_number, interface_protocol }
}

/// The interface of the first node called `name`, if it has one.
pub open spec fn interface_of(
    tree: Seq<(Seq<char>, Option<UsbInterfaceInfo>)>,
    name: Seq<char>,
) -> Option<UsbInterfaceInfo>
    decreases tree.len(),
{
    if tree.len() == 0 {
        None
    } else if tree[0].0 == name {
        tree[0].1
    } else {
        interface_of(tree.skip(1), name)
    }
}

impl MockSysfs {
    /// The nodes, by name and interface, in insertion order.
    pub closed spec fn tree(&self) -> Seq<(Seq<char>, Option<UsbInterfaceInfo>)> {
        self.nodes@.map_values(|n: (String, Option<UsbInterfaceInfo>)| (n.0@, n.1))
    }

    /// An empty tree.
    #[must_use]
    pub fn new() -> (sysfs: Self)
        ensures
            sysfs.tree() == Seq::<(Seq<char>, Option<UsbInterfaceInfo>)>::empty(),
    {
        let sysfs = MockSysfs { nodes: Vec::new() };
        assert(sysfs.tree() =~= Seq::empty());
        sysfs
    }

    /// Add one fake hidraw node with a USB parent.
    #[must_use]
    pub fn with_node(self, name: &str, info: UsbInterfaceInfo) -> (sysfs: Self)
        ensures
            sysfs.tree() == self.tree().push((name@, Some(info))),
    {
        let mut sysfs = self;
        sysfs.nodes.push((name.to_owned(), Some(info)));
        assert(sysfs.tree() =~= self.tree().push((name@, Some(info))));
        sysfs
    }

    /// Add a node with no USB parent: a Bluetooth, I2C or virtual HID device.
    #[must_use]
    pub fn without_usb_parent(self, name: &str) -> (sysfs: Self)
        ensures
            sysfs.tree() == self.tree().push((name@, None)),
    {
        let mut sysfs = self;
        sysfs.nodes.push((name.to_owned(), None));
        assert(sysfs.tree() =~= self.tree().push((name@, None)));
        sysfs
    }

    /// The BlackWidow V4 Pro's interface layout.
    ///
    /// Four hidraw nodes; interface 3 (`hidraw3`, protocol `0x02`) is the
    /// control interface.
    #[must_use]
    pub fn blackwidow_v4_pro() -> (sysfs: Self)
        ensures
            sysfs.tree() == seq![
                ("hidraw0"@, Some(razer_interface(0x028D, 0, 0x01))),
                ("hidraw1"@, Some(razer_interface(0x028D, 1, 0x00))),
                ("hidraw2"@, Some(razer_interface(0x028D, 2, 0x00))),
                ("hidraw3"@, Some(razer_interface(0x028D, 3, 0x02))),
            ],
    {
        let sysfs = MockSysfs::new().with_node("hidraw0", usb(0x028D, 0, 0x01)).with_node(
            "hidraw1",
            usb(0x028D, 1, 0x00),
        ).with_node("hidraw2", usb(0x028D, 2, 0x00)).with_node("hidraw3", usb(0x028D, 3, 0x02));
        assert(sysfs.tree() =~= seq![
            ("hidraw0"@, Some(razer_interface(0x028D, 0, 0x01))),
            ("hidraw1"@, Some(razer_interface(0x028D, 1, 0x00))),
            ("hidraw2"@, Some(razer_interface(0x028D, 2, 0x00))),
            ("hidraw3"@, Some(razer_interface(0x028D, 3, 0x02))),
        ]);
        sysfs
    }

    /// The Basilisk V3 Pro (wireless) interface layout.
    ///
    /// Three hidraw nodes; interface 0 (`hidraw4`, protocol `0x02`) is the
    /// control interface. The node numbers start at 4: a mouse plugged in after
    /// a keyboard does not get `hidraw0`.
    #[must_use]
    pub fn basilisk_v3_pro_wireless() -> (sysfs: Self)
        ensures
            sysfs.tree() == seq![
                ("hidraw4"@, Some(razer_interface(0x00AB, 0, 0x02))),
                ("hidraw5"@, Some(razer_interface(0x00AB, 1, 0x01))),
                ("hidraw6"@, Some(razer_interface(0x00AB, 2, 0x00))),
            ],
    {
        let sysfs = MockSysfs::new().with_node("hidraw4", usb(0x00AB, 0, 0x02)).with_node(
            "hidraw5",
            usb(0x00AB, 1, 0x01),
        ).with_node("hidraw6", usb(0x00AB, 2, 0x00));
        assert(sysfs.tree() =~= seq![
            ("hidraw4"@, Some(razer_interface(0x00AB, 0, 0x02))),
            ("hidraw5"@, Some(razer_interface(0x00AB, 1, 0x01))),
            ("hidraw6"@, Some(razer_interface(0x00AB, 2, 0x00))),
        ]);
        sysfs
    }
}

impl Default for MockSysfs {
    fn default() -> (sysfs: Self)
        ensures
            sysfs.tree() == Seq::<(Seq<char>, Option<UsbInterfaceInfo>)>::empty(),
    {
        MockSysfs::new()
    }
}

/// Shorthand for a Razer-vendor interface descriptor.
fn usb(pid: u16, interface_number: u8, interface_protocol: u8) -> (info: UsbInterfaceInfo)
    ensures
        info == razer_interface(pid, interface_number, interface_protocol),
{
    UsbInterfaceInfo { vendor_id: 0x1532, product_id: pid, interface_number, interface_protocol }
}

impl SysfsSource for MockSysfs {
    /// All nodes, in insertion order.
    open spec fn lists(&self, result: Result<Vec<String>, HidError>) -> bool {
        &&& result is Ok
        &&& texts(result->Ok_0@) == self.tree().map_values(
            |n: (Seq<char>, Option<UsbInterfaceInfo>)| n.0,
        )
    }

    /// The interface of the first node of that name.
    open spec fn reports(
        &self,
        name: Seq<char>,
        result: Result<Option<UsbInterfaceInfo>, HidError>,
    ) -> bool {
        result == Ok::<Option<UsbInterfaceInfo>, HidError>(interface_of(self.tree(), name))
    }

    /// The node in `/dev`.
    open spec fn locates(&self, name: Seq<char>, path: Seq<char>) -> bool {
        path == joined("/dev"@, name)
    }

    fn hidraw_names(&self) -> (result: Result<Vec<String>, HidError>) {
        let mut names: Vec<String> = Vec::new();
        let mut i: usize = 0;
        while i < self.nodes.len()
            invariant
                0 <= i <= self.nodes@.len(),
                names@.len() == i,
                forall|k: int| 0 <= k < i ==> (#[trigger] names@[k])@ == self.nodes@[k].0@,
            decreases self.nodes@.len() - i,
        {
            names.push(self.nodes[i].0.clone());
            i = i + 1;
        }
        assert(texts(names@) =~= self.tree().map_values(
            |n: (Seq<char>, Option<UsbInterfaceInfo>)| n.0,
        ));
        Ok(names)
    }

    fn interface_info(&self, hidraw_name: &str) -> (result: Result<
        Option<UsbInterfaceInfo>,
        HidError,
    >) {
        let mut i: usize = 0;
        assert(self.tree().skip(0) =~= self.tree());
        while i < self.nodes.len()
            invariant
                0 <= i <= self.nodes@.len(),
                self.tree().len() == self.nodes@.len(),
                interface_of(self.tree(), hidraw_name@) == interface_of(
                    self.tree().skip(i as int),
                    hidraw_name@,
                ),
            decreases self.nodes@.len() - i,
        {
            let ghost rest = self.tree().skip(i as int);
            assert(rest[0] == (self.nodes@[i as int].0@, self.nodes@[i as int].1));
            if same(self.nodes[i].0.as_str(), hidraw_name) {
                return Ok(self.nodes[i].1);
            }
            assert(rest.skip(1) =~= self.tree().skip(i + 1));
            i = i + 1;
        }
        Ok(None)
    }

    fn device_path(&self, hidraw_name: &str) -> (path: String) {
        device_node(hidraw_name)
    }
}

/// The interface of a node is the one it was put in with, where no two nodes
/// share a name.
pub proof fn law_a_node_keeps_its_interface(
    tree: Seq<(Seq<char>, Option<UsbInterfaceInfo>)>,
    i: int,
)
    requires
        0 <= i < tree.len(),
        forall|a: int, b: int| 0 <= a < b < tree.len() ==> tree[a].0 != tree[b].0,
    ensures
        interface_of(tree, tree[i].0) == tree[i].1,
{
    lemma_interface_at(tree, i);
}

/// The interface of a node that occurs in a tree without repeated names.
proof fn lemma_interface_at(
    tree: Seq<(Seq<char>, Option<UsbInterfaceInfo>)>,
    i: int,
)
    requires
        0 <= i < tree.len(),
        forall|a: int, b: int| 0 <= a < b < tree.len() ==> tree[a].0 != tree[b].0,
    ensures
        interface_of(tree, tree[i].0) == tree[i].1,
    decreases tree.len(),
{
    if i > 0 {
        assert(tree[0].0 != tree[i].0);
        assert(tree.skip(1)[i - 1] == tree[i]);
        lemma_interface_at(tree.skip(1), i - 1);
    }
}

/// A search of a tree succeeds if and only if some node matches, finds the
/// lowest-numbered node that does, and reports every failure as a device that is
/// not there.
pub proof fn law_the_lowest_numbered_match_wins(
    sysfs: MockSysfs,
    vid: u16,
    pid: u16,
    interface: u8,
    result: Result<HidrawNode, HidError>,
    i: int,
)
    requires
        finds(sysfs, vid, pid, interface, result),
        0 <= i < sysfs.tree().len(),
        interface_of(sysfs.tree(), sysfs.tree()[i].0) is Some,
        interface_of(sysfs.tree(), sysfs.tree()[i].0)->0.vendor_id == vid,
        interface_of(sysfs.tree(), sysfs.tree()[i].0)->0.product_id == pid,
        interface_of(sysfs.tree(), sysfs.tree()[i].0)->0.interface_number == interface,
    ensures
        result is Ok,
        name_le(result->Ok_0.name@, sysfs.tree()[i].0),
        result->Ok_0.path@ == joined("/dev"@, result->Ok_0.name@),
{
    let (order, findings) = lemma_search_of_a_tree(sysfs, vid, pid, interface, result);
    let name = sysfs.tree()[i].0;
    let names = sysfs.tree().map_values(|n: (Seq<char>, Option<UsbInterfaceInfo>)| n.0);
    assert(names[i] == name);
    to_multiset_contains(names, name);
    to_multiset_contains(order, name);
    assert(order.contains(name));
    let k = choose|k: int| 0 <= k < order.len() && order[k] == name;
    let last = findings.len() - 1;
    if k < last {
        assert(findings[k] == Ok::<Option<UsbInterfaceInfo>, HidError>(
            interface_of(sysfs.tree(), order[k]),
        ));
        assert(passes_over(findings[k], vid, pid, interface));
        assert(false);
    }
    if last < 0 || passes_over(findings[last], vid, pid, interface) {
        assert(k == last);
        assert(sysfs.reports(order[last], findings[last]));
        assert(false);
    }
    assert(sysfs.reports(order[last], findings[last]));
    let le = |a: Seq<char>, b: Seq<char>| name_le(a, b);
    if last < k {
        assert(le(order[last], order[k]));
    } else {
        lemma_name_le_reflexive(name);
    }
}

/// A search of a tree in which no node matches says that the device is not
/// there.
pub proof fn law_no_match_is_reported_as_not_found(
    sysfs: MockSysfs,
    vid: u16,
    pid: u16,
    interface: u8,
    result: Result<HidrawNode, HidError>,
)
    requires
        finds(sysfs, vid, pid, interface, result),
        forall|i: int|
            0 <= i < sysfs.tree().len() ==> {
                let info = interface_of(sysfs.tree(), (#[trigger] sysfs.tree()[i]).0);
                info is Some ==> info->0.vendor_id != vid || info->0.product_id != pid
                    || info->0.interface_number != interface
            },
    ensures
        result == Err::<HidrawNode, HidError>(HidError::DeviceNotFound { vid, pid, interface }),
{
    let (order, findings) = lemma_search_of_a_tree(sysfs, vid, pid, interface, result);
    let names = sysfs.tree().map_values(|n: (Seq<char>, Option<UsbInterfaceInfo>)| n.0);
    let last = findings.len() - 1;
    if last >= 0 {
        assert(sysfs.reports(order[last], findings[last]));
        let name = order[last];
        assert(order.contains(name));
        to_multiset_contains(order, name);
        to_multiset_contains(names, name);
        let i = choose|i: int| 0 <= i < names.len() && names[i] == name;
        assert(sysfs.tree()[i].0 == name);
    }
}

/// The order and findings of a search of a tree.
proof fn lemma_search_of_a_tree(
    sysfs: MockSysfs,
    vid: u16,
    pid: u16,
    interface: u8,
    result: Result<HidrawNode, HidError>,
) -> (seen: (Seq<Seq<char>>, Seq<Result<Option<UsbInterfaceInfo>, HidError>>))
    requires
        finds(sysfs, vid, pid, interface, result),
    ensures
        in_order(
            seen.0,
            sysfs.tree().map_values(|n: (Seq<char>, Option<UsbInterfaceInfo>)| n.0),
        ),
        search_ends(sysfs, seen.0, seen.1, vid, pid, interface, result),
{
    let listed = choose|listed: Result<Vec<String>, HidError>| #[trigger]
        sysfs.lists(listed) && match listed {
            Err(e) => result == Err::<HidrawNode, HidError>(e),
            Ok(names) => exists|
                order: Seq<Seq<char>>,
                findings: Seq<Result<Option<UsbInterfaceInfo>, HidError>>,
            |
                in_order(order, texts(names@)) && #[trigger] search_ends(
                    sysfs,
                    order,
                    findings,
                    vid,
                    pid,
                    interface,
                    result,
                ),
        };
    let (order, findings) = choose|
        order: Seq<Seq<char>>,
        findings: Seq<Result<Option<UsbInterfaceInfo>, HidError>>,
    |
        in_order(order, texts(listed->Ok_0@)) && #[trigger] search_ends(
            sysfs,
            order,
            findings,
            vid,
            pid,
            interface,
            result,
        );
    (order, findings)
}

/// What a search finds does not depend on the order in which nodes are listed:
/// over two trees that hold the same nodes, each name once, two searches for the
/// same device end the same.
pub proof fn law_the_listing_order_does_not_matter(
    a: MockSysfs,
    b: MockSysfs,
    vid: u16,
    pid: u16,
    interface: u8,
    found_a: Result<HidrawNode, HidError>,
    found_b: Result<HidrawNode, HidError>,
)
    requires
        a.tree().to_multiset() == b.tree().to_multiset(),
        forall|i: int, j: int| 0 <= i < j < a.tree().len() ==> a.tree()[i].0 != a.tree()[j].0,
        forall|i: int, j: int| 0 <= i < j < b.tree().len() ==> b.tree()[i].0 != b.tree()[j].0,
        finds(a, vid, pid, interface, found_a),
        finds(b, vid, pid, interface, found_b),
    ensures
        found_a is Ok <==> found_b is Ok,
        found_a is Ok ==> {
            &&& found_a->Ok_0.name@ == found_b->Ok_0.name@
            &&& found_a->Ok_0.path@ == found_b->Ok_0.path@
            &&& found_a->Ok_0.info == found_b->Ok_0.info
        },
        found_a is Err ==> found_a == found_b,
{
    lemma_matches_carry_over(a, b, vid, pid, interface, found_a, found_b);
    lemma_matches_carry_over(b, a, vid, pid, interface, found_b, found_a);
    if found_a is Ok {
        lemma_name_le_antisymmetric(found_a->Ok_0.name@, found_b->Ok_0.name@);
        law_a_found_node_is_the_one_asked_for(a, vid, pid, interface, found_a);
        law_a_found_node_is_the_one_asked_for(b, vid, pid, interface, found_b);
        lemma_same_interfaces(a.tree(), b.tree(), found_a->Ok_0.name@);
    } else {
        lemma_failure_is_not_found(a, vid, pid, interface, found_a);
        lemma_failure_is_not_found(b, vid, pid, interface, found_b);
    }
}

/// A search of a tree fails only with the device not found.
proof fn lemma_failure_is_not_found(
    sysfs: MockSysfs,
    vid: u16,
    pid: u16,
    interface: u8,
    result: Result<HidrawNode, HidError>,
)
    requires
        finds(sysfs, vid, pid, interface, result),
        result is Err,
    ensures
        result == Err::<HidrawNode, HidError>(HidError::DeviceNotFound { vid, pid, interface }),
{
    let (order, findings) = lemma_search_of_a_tree(sysfs, vid, pid, interface, result);
    let last = findings.len() - 1;
    if last >= 0 {
        assert(sysfs.reports(order[last], findings[last]));
    }
}

/// Two trees with the same nodes, each name once, report the same interface for
/// a name.
proof fn lemma_same_interfaces(
    a: Seq<(Seq<char>, Option<UsbInterfaceInfo>)>,
    b: Seq<(Seq<char>, Option<UsbInterfaceInfo>)>,
    name: Seq<char>,
)
    requires
        a.to_multiset() == b.to_multiset(),
        forall|i: int, j: int| 0 <= i < j < a.len() ==> a[i].0 != a[j].0,
        forall|i: int, j: int| 0 <= i < j < b.len() ==> b[i].0 != b[j].0,
    ensures
        interface_of(a, name) == interface_of(b, name),
{
    if exists|i: int| 0 <= i < a.len() && (#[trigger] a[i]).0 == name {
        let i = choose|i: int| 0 <= i < a.len() && (#[trigger] a[i]).0 == name;
        assert(a.contains(a[i]));
        to_multiset_contains(a, a[i]);
        to_multiset_contains(b, a[i]);
        let j = choose|j: int| 0 <= j < b.len() && b[j] == a[i];
        lemma_interface_at(a, i);
        lemma_interface_at(b, j);
    } else {
        assert forall|j: int| 0 <= j < b.len() implies (#[trigger] b[j]).0 != name by {
            assert(b.contains(b[j]));
            to_multiset_contains(b, b[j]);
            to_multiset_contains(a, b[j]);
            let i = choose|i: int| 0 <= i < a.len() && a[i] == b[j];
            assert(a[i].0 == b[j].0);
        }
        lemma_no_such_node(a, name);
        lemma_no_such_node(b, name);
    }
}

/// A name that no node carries has no interface.
proof fn lemma_no_such_node(tree: Seq<(Seq<char>, Option<UsbInterfaceInfo>)>, name: Seq<char>)
    requires
        forall|i: int| 0 <= i < tree.len() ==> (#[trigger] tree[i]).0 != name,
    ensures
        interface_of(tree, name) is None,
    decreases tree.len(),
{
    if tree.len() > 0 {
        assert(tree[0].0 != name);
        assert forall|i: int| 0 <= i < tree.skip(1).len() implies (#[trigger] tree.skip(1)[i]).0
            != name by {
            assert(tree.skip(1)[i] == tree[i + 1]);
        }
        lemma_no_such_node(tree.skip(1), name);
    }
}

/// What is found in one tree bounds what is found in another with the same
/// nodes.
proof fn lemma_matches_carry_over(
    a: MockSysfs,
    b: MockSysfs,
    vid: u16,
    pid: u16,
    interface: u8,
    found_a: Result<HidrawNode, HidError>,
    found_b: Result<HidrawNode, HidError>,
)
    requires
        a.tree().to_multiset() == b.tree().to_multiset(),
        forall|i: int, j: int| 0 <= i < j < a.tree().len() ==> a.tree()[i].0 != a.tree()[j].0,
        forall|i: int, j: int| 0 <= i < j < b.tree().len() ==> b.tree()[i].0 != b.tree()[j].0,
        finds(a, vid, pid, interface, found_a),
        finds(b, vid, pid, interface, found_b),
    ensures
        found_a is Ok ==> found_b is Ok && name_le(found_b->Ok_0.name@, found_a->Ok_0.name@),
{
    if found_a is Ok {
        let name = found_a->Ok_0.name@;
        law_a_found_node_is_the_one_asked_for(a, vid, pid, interface, found_a);
        lemma_same_interfaces(a.tree(), b.tree(), name);
        if forall|j: int| 0 <= j < b.tree().len() ==> (#[trigger] b.tree()[j]).0 != name {
            lemma_no_such_node(b.tree(), name);
        }
        let j = choose|j: int| 0 <= j < b.tree().len() && (#[trigger] b.tree()[j]).0 == name;
        law_the_lowest_numbered_match_wins(b, vid, pid, interface, found_b, j);
    }
}

// ---------------------------------------------------------------------------
// MockTransport
// ---------------------------------------------------------------------------

/// The contents of a row of buffers.
pub open spec fn contents(buffers: Seq<[u8; HIDRAW_BUF_LEN]>) -> Seq<Seq<u8>> {
    buffers.map_values(|b: [u8; HIDRAW_BUF_LEN]| b@)
}

/// A fake device: records every SET, replays queued GETs.
#[derive(Debug, Clone)]
pub struct MockTransport {
    sent: Vec<[u8; HIDRAW_BUF_LEN]>,
    responses: VecDeque<[u8; HIDRAW_BUF_LEN]>,
    fail_next_set: Option<i32>,
}

impl MockTransport {
    /// Every buffer that was set, in order.
    pub closed spec fn sent_buffers(&self) -> Seq<Seq<u8>> {
        contents(self.sent@)
    }

    /// The buffers queued to be handed back, in order.
    pub closed spec fn queued(&self) -> Seq<Seq<u8>> {
        contents(self.responses@)
    }

    /// The errno the next SET fails with, if it is to fail.
    pub closed spec fn failing(&self) -> Option<i32> {
        self.fail_next_set
    }

    /// A transport with nothing sent and nothing queued.
    #[must_use]
    pub fn new() -> (transport: Self)
        ensures
            transport.sent_buffers() == Seq::<Seq<u8>>::empty(),
            transport.queued() == Seq::<Seq<u8>>::empty(),
            transport.failing() is None,
    {
        let transport = MockTransport {
            sent: Vec::new(),
            responses: VecDeque::new(),
            fail_next_set: None,
        };
        assert(transport.sent_buffers() =~= Seq::empty());
        assert(transport.queued() =~= Seq::empty());
        transport
    }

    /// Queue one report to be handed back by the next `get_feature`.
    ///
    /// The report is encoded exactly as a device would encode it, checksum
    /// included.
    pub fn push_response(&mut self, report: &RazerReport)
        ensures
            final(self).queued() == old(self).queued().push(
                hidraw_buffer(*report, report.transaction_id),
            ),
            final(self).sent_buffers() == old(self).sent_buffers(),
            final(self).failing() == old(self).failing(),
    {
        let bytes = report.to_bytes();
        let mut buf = [0u8; HIDRAW_BUF_LEN];
        let mut i: usize = 0;
        while i < REPORT_LEN
            invariant
                0 <= i <= REPORT_LEN,
                buf@[0] == 0,
                buf@.subrange(1, 1 + i) =~= bytes@.take(i as int),
            decreases REPORT_LEN - i,
        {
            buf[1 + i] = bytes[i];
            i = i + 1;
        }
        assert(buf@ =~= hidraw_buffer(*report, report.transaction_id)) by {
            assert forall|k: int| 1 <= k < 91 implies buf@[k] == bytes@[k - 1] by {
                assert(buf@.subrange(1, 91)[k - 1] == bytes@.take(90)[k - 1]);
            }
            assert((RazerReport { transaction_id: report.transaction_id, ..*report }) == *report);
        }
        self.push_raw(buf);
    }

    /// Queue a raw 91-byte buffer, for malformed responses.
    pub fn push_raw(&mut self, buf: [u8; HIDRAW_BUF_LEN])
        ensures
            final(self).queued() == old(self).queued().push(buf@),
            final(self).sent_buffers() == old(self).sent_buffers(),
            final(self).failing() == old(self).failing(),
    {
        self.responses.push_back(buf);
        assert(self.queued() =~= old(self).queued().push(buf@));
    }

    /// Every buffer passed to `set_feature`, in order.
    #[must_use]
    pub fn sent(&self) -> (buffers: &[[u8; HIDRAW_BUF_LEN]])
        ensures
            contents(buffers@) == self.sent_buffers(),
    {
        self.sent.as_slice()
    }

    /// [`MockTransport::sent`] decoded back into reports.
    #[must_use]
    pub fn sent_reports(&self) -> (reports: Vec<RazerReport>)
        ensures
            reports@.len() == self.sent_buffers().len(),
            forall|i: int|
                0 <= i < reports@.len() ==> (#[trigger] reports@[i]).decodes(
                    self.sent_buffers()[i].skip(1),
                ),
    {
        let mut reports: Vec<RazerReport> = Vec::new();
        let mut n: usize = 0;
        while n < self.sent.len()
            invariant
                0 <= n <= self.sent@.len(),
                reports@.len() == n,
                forall|i: int|
                    0 <= i < n ==> (#[trigger] reports@[i]).decodes(
                        self.sent_buffers()[i].skip(1),
                    ),
            decreases self.sent@.len() - n,
        {
            let buf = self.sent[n];
            let mut report = [0u8; REPORT_LEN];
            let mut i: usize = 0;
            while i < REPORT_LEN
                invariant
                    0 <= i <= REPORT_LEN,
                    report@.take(i as int) =~= buf@.subrange(1, 1 + i),
                decreases REPORT_LEN - i,
            {
                report[i] = buf[1 + i];
                i = i + 1;
            }
            assert(report@ =~= self.sent_buffers()[n as int].skip(1)) by {
                assert(report@.take(90) =~= report@);
                assert(buf@.subrange(1, 91) =~= buf@.skip(1));
            }
            reports.push(RazerReport::from_bytes(&report));
            n = n + 1;
        }
        reports
    }

    /// Make the next `set_feature` fail with this errno, then behave normally.
    pub fn fail_next_set(&mut self, errno: i32)
        ensures
            final(self).failing() == Some(errno),
            final(self).sent_buffers() == old(self).sent_buffers(),
            final(self).queued() == old(self).queued(),
    {
        self.fail_next_set = Some(errno);
    }

    /// How many queued responses remain unconsumed.
    #[must_use]
    pub fn pending_responses(&self) -> (n: usize)
        ensures
            n == self.queued().len(),
    {
        self.responses.len()
    }
}

impl Default for MockTransport {
    fn default() -> (transport: Self)
        ensures
            transport.sent_buffers() == Seq::<Seq<u8>>::empty(),
            transport.queued() == Seq::<Seq<u8>>::empty(),
            transport.failing() is None,
    {
        MockTransport::new()
    }
}

impl FeatureTransport for MockTransport {
    /// A transport told to fail does so once and records nothing; any other
    /// records the buffer.
    open spec fn sets(&self, buf: Seq<u8>, after: &Self, result: Result<(), HidError>) -> bool {
        &&& after.queued() == self.queued()
        &&& after.failing() is None
        &&& match self.failing() {
            Some(errno) => {
                &&& after.sent_buffers() == self.sent_buffers()
                &&& result == Err::<(), HidError>(HidError::Io { op: "HIDIOCSFEATURE", errno })
            },
            None => {
                &&& after.sent_buffers() == self.sent_buffers().push(buf)
                &&& result is Ok
            },
        }
    }

    /// The next queued response fills the buffer; with the queue empty there is
    /// nothing to read, and the count is zero.
    open spec fn gets(
        &self,
        before: Seq<u8>,
        filled: Seq<u8>,
        after: &Self,
        result: Result<usize, HidError>,
    ) -> bool {
        &&& after.sent_buffers() == self.sent_buffers()
        &&& after.failing() == self.failing()
        &&& if self.queued().len() > 0 {
            &&& filled == self.queued()[0]
            &&& after.queued() == self.queued().skip(1)
            &&& result == Ok::<usize, HidError>(HIDRAW_BUF_LEN)
        } else {
            &&& filled == before
            &&& after.queued() == self.queued()
            &&& result == Ok::<usize, HidError>(0)
        }
    }

    fn set_feature(&mut self, buf: &[u8; HIDRAW_BUF_LEN]) -> (result: Result<(), HidError>) {
        match self.fail_next_set {
            Some(errno) => {
                self.fail_next_set = None;
                Err(HidError::Io { op: "HIDIOCSFEATURE", errno })
            },
            None => {
                self.sent.push(*buf);
                assert(self.sent_buffers() =~= old(self).sent_buffers().push(buf@));
                Ok(())
            },
        }
    }

    fn get_feature(&mut self, buf: &mut [u8; HIDRAW_BUF_LEN]) -> (result: Result<
        usize,
        HidError,
    >) {
        match self.responses.pop_front() {
            Some(response) => {
                *buf = response;
                assert(self.queued() =~= old(self).queued().skip(1));
                Ok(HIDRAW_BUF_LEN)
            },
            None => Ok(0),
        }
    }
}

// ---------------------------------------------------------------------------
// MockClock
// ---------------------------------------------------------------------------

/// The sum of a row of spans, in nanoseconds.
pub open spec fn total_nanos(spans: Seq<Duration>) -> nat
    decreases spans.len(),
{
    if spans.len() == 0 {
        0
    } else {
        total_nanos(spans.drop_last()) + spans.last().nanos as nat
    }
}

/// Records sleeps instead of performing them.
#[derive(Debug, Clone)]
pub struct MockClock {
    sleeps: Vec<Duration>,
}

impl MockClock {
    /// Every sleep requested, in order.
    pub closed spec fn slept(&self) -> Seq<Duration> {
        self.sleeps@
    }

    /// A clock that has slept for nothing.
    #[must_use]
    pub fn new() -> (clock: Self)
        ensures
            clock.slept() == Seq::<Duration>::empty(),
    {
        MockClock { sleeps: Vec::new() }
    }

    /// Every sleep requested, in order.
    #[must_use]
    pub fn sleeps(&self) -> (spans: &[Duration])
        ensures
            spans@ == self.slept(),
    {
        self.sleeps.as_slice()
    }

    /// The sum of every sleep requested.
    #[must_use]
    pub fn total(&self) -> (sum: Duration)
        requires
            total_nanos(self.slept()) <= u64::MAX,
        ensures
            sum.nanos == total_nanos(self.slept()),
    {
        let mut nanos: u64 = 0;
        let mut i: usize = 0;
        assert(self.sleeps@.take(0) =~= Seq::empty());
        while i < self.sleeps.len()
            invariant
                0 <= i <= self.sleeps@.len(),
                nanos == total_nanos(self.sleeps@.take(i as int)),
                total_nanos(self.sleeps@) <= u64::MAX,
            decreases self.sleeps@.len() - i,
        {
            proof {
                assert(self.sleeps@.take(i + 1).drop_last() =~= self.sleeps@.take(i as int));
                lemma_total_grows(self.sleeps@, i + 1);
            }
            nanos = nanos + self.sleeps[i].nanos;
            i = i + 1;
        }
        assert(self.sleeps@.take(i as int) =~= self.sleeps@);
        Duration { nanos }
    }
}

/// The sum of the first spans is at most the sum of all.
proof fn lemma_total_grows(spans: Seq<Duration>, n: int)
    requires
        0 <= n <= spans.len(),
    ensures
        total_nanos(spans.take(n)) <= total_nanos(spans),
    decreases spans.len(),
{
    if n == spans.len() {
        assert(spans.take(n) =~= spans);
    } else {
        lemma_total_grows(spans.drop_last(), n);
        assert(spans.drop_last().take(n) =~= spans.take(n));
    }
}

impl Default for MockClock {
    fn default() -> (clock: Self)
        ensures
            clock.slept() == Seq::<Duration>::empty(),
    {
        MockClock::new()
    }
}

impl Clock for MockClock {
    /// The span is recorded.
    open spec fn sleeps_for(&self, d: Duration, after: &Self) -> bool {
        after.slept() == self.slept().push(d)
    }

    fn sleep(&mut self, d: Duration) {
        self.sleeps.push(d);
    }
}

/// The spans of two runs of sleeps add up.
pub proof fn law_sleeps_add_up(a: Seq<Duration>, b: Seq<Duration>, d: Duration)
    ensures
        total_nanos(a + b) == total_nanos(a) + total_nanos(b),
        total_nanos(seq![d]) == d.nanos,
    decreases b.len(),
{
    reveal_with_fuel(total_nanos, 2);
    if b.len() > 0 {
        assert((a + b).drop_last() =~= a + b.drop_last());
        law_sleeps_add_up(a, b.drop_last(), d);
    } else {
        assert(a + b =~= a);
    }
}

/// A listing of a tree holds every node of it whose interface has the vendor id
/// 0x1532, with that interface and its path under `/dev`.
pub proof fn law_a_listing_holds_every_razer_node(
    sysfs: MockSysfs,
    result: Result<Vec<HidrawNode>, HidError>,
    i: int,
) -> (k: int)
    requires
        lists_razer(sysfs, result),
        0 <= i < sysfs.tree().len(),
        interface_of(sysfs.tree(), sysfs.tree()[i].0) is Some,
        interface_of(sysfs.tree(), sysfs.tree()[i].0)->0.vendor_id == 0x1532,
    ensures
        result is Ok,
        0 <= k < result->Ok_0@.len(),
        result->Ok_0@[k].name@ == sysfs.tree()[i].0,
        Some(result->Ok_0@[k].info) == interface_of(sysfs.tree(), sysfs.tree()[i].0),
        result->Ok_0@[k].path@ == joined("/dev"@, sysfs.tree()[i].0),
{
    let name = sysfs.tree()[i].0;
    let (order, found) = law_every_razer_node_is_listed(sysfs, result);
    let names = sysfs.tree().map_values(|n: (Seq<char>, Option<UsbInterfaceInfo>)| n.0);
    assert(names[i] == name);
    to_multiset_contains(names, name);
    to_multiset_contains(order, name);
    assert(order.contains(name));
    let x = choose|x: int| 0 <= x < order.len() && order[x] == name;
    assert(sysfs.reports(order[x], Ok(found[x])));
    let k = choose|k: int|
        0 <= k < result->Ok_0@.len() && is_node(
            sysfs,
            #[trigger] result->Ok_0@[k],
            order[x],
            found[x]->0,
        );
    k
}

}

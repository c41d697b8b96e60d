//! Picking the right hidraw node out of those present.
//!
//! A device exposes several hidraw nodes and only one of them is its control
//! interface: the one whose `bInterfaceNumber` is the device table's
//! `report_index`.
use vstd::prelude::*;
use vstd::relations::{sorted_by, total_ordering};
use vstd::seq_lib::{
    lemma_sorted_unique, to_multiset_build, to_multiset_insert, to_multiset_len,
};

use crate::devices::table::VENDOR_ID;
use crate::hid::error::HidError;
use crate::hid::sysfs::{SysfsSource, UsbInterfaceInfo};
use crate::text::{
    chars_of, decimal, has_prefix, lemma_digits_fit, lemma_text_lt_irreflexive, lemma_text_lt_total,
    lemma_text_lt_transitive, less, parse_unsigned, parsed, starts_with, text_lt, texts, IntFault,
};
use crate::text::laws::law_decimal_reads_back;

verus! {

/// One `hidraw` node and what its parent USB interface says about it.
#[derive(Debug, Clone, PartialEq, Eq)]
pub struct HidrawNode {
    /// The sysfs class entry name, e.g. `"hidraw3"`.
    pub name: String,
    /// The device node, e.g. `/dev/hidraw3`.
    pub path: String,
    /// The parent USB interface's identity.
    pub info: UsbInterfaceInfo,
}

// ---------------------------------------------------------------------------
// Order
// ---------------------------------------------------------------------------

/// The number in a `hidrawN` name, if the name fits the pattern.
pub open spec fn index_of(name: Seq<char>) -> Option<nat> {
    if starts_with(name, "hidraw"@) {
        match parsed(name.skip(6), 10, u32::MAX as nat) {
            Ok(n) => Some(n),
            Err(_) => None,
        }
    } else {
        None
    }
}

/// Where a name ranks: by its number, with every name that has none after all
/// that have one.
pub open spec fn rank(name: Seq<char>) -> nat {
    match index_of(name) {
        Some(n) => n,
        None => 0x1_0000_0000,
    }
}

/// Order by rank, then by name.
pub open spec fn name_le(a: Seq<char>, b: Seq<char>) -> bool {
    rank(a) < rank(b) || (rank(a) == rank(b) && !text_lt(b, a))
}

/// Whether `order` holds exactly the names in `listed`, in ascending order.
pub open spec fn in_order(order: Seq<Seq<char>>, listed: Seq<Seq<char>>) -> bool {
    &&& order.to_multiset() == listed.to_multiset()
    &&& sorted_by(order, |a: Seq<char>, b: Seq<char>| name_le(a, b))
}

/// The numeric suffix of a `hidrawN` name, used to order enumeration.
///
/// Anything that does not fit the pattern sorts last, by name, so an
/// unrecognised entry can never displace a real one.
pub fn hidraw_index(name: &str) -> (index: Option<u32>)
    ensures
        match index {
            Some(n) => index_of(name@) == Some(n as nat),
            None => index_of(name@) is None,
        },
{
    let v = chars_of(name);
    proof {
        reveal_strlit("hidraw");
    }
    if !has_prefix(&v, "hidraw") {
        return None;
    }
    match parse_unsigned(&v, 6, 10, u32::MAX as u64) {
        Ok(n) => Some(n as u32),
        Err(_) => None,
    }
}

/// Whether `a` comes before `b` or is the same.
fn name_at_most(a: &str, b: &str) -> (r: bool)
    ensures
        r == name_le(a@, b@),
{
    let ka: u64 = match hidraw_index(a) {
        Some(n) => n as u64,
        None => 0x1_0000_0000,
    };
    let kb: u64 = match hidraw_index(b) {
        Some(n) => n as u64,
        None => 0x1_0000_0000,
    };
    ka < kb || (ka == kb && !less(b, a))
}

/// The order is total: reflexive, antisymmetric, transitive, and any two names
/// are related.
proof fn lemma_name_le_is_total_order()
    ensures
        total_ordering(|a: Seq<char>, b: Seq<char>| name_le(a, b)),
{
    let le = |a: Seq<char>, b: Seq<char>| name_le(a, b);
    assert forall|a: Seq<char>| #[trigger] le(a, a) by {
        lemma_text_lt_irreflexive(a);
    }
    assert forall|a: Seq<char>, b: Seq<char>| #[trigger] le(a, b) && #[trigger] le(b, a) implies a
        == b by {
        lemma_text_lt_total(a, b);
    }
    assert forall|a: Seq<char>, b: Seq<char>| #[trigger] le(a, b) || #[trigger] le(b, a) by {
        lemma_text_lt_total(a, b);
    }
    assert forall|a: Seq<char>, b: Seq<char>, c: Seq<char>| #[trigger]
        le(a, b) && #[trigger] le(b, c) implies le(a, c) by {
        lemma_name_le_transitive(a, b, c);
    }
}

/// Every name is at most itself.
pub proof fn lemma_name_le_reflexive(a: Seq<char>)
    ensures
        name_le(a, a),
{
    lemma_text_lt_irreflexive(a);
}

/// Two names that are each at most the other are the same.
pub proof fn lemma_name_le_antisymmetric(a: Seq<char>, b: Seq<char>)
    requires
        name_le(a, b),
        name_le(b, a),
    ensures
        a == b,
{
    lemma_text_lt_total(a, b);
}

/// The order is transitive.
proof fn lemma_name_le_transitive(a: Seq<char>, b: Seq<char>, c: Seq<char>)
    requires
        name_le(a, b),
        name_le(b, c),
    ensures
        name_le(a, c),
{
    lemma_text_lt_total(a, b);
    lemma_text_lt_total(b, c);
    if text_lt(a, b) && text_lt(b, c) {
        lemma_text_lt_transitive(a, b, c);
    }
    lemma_text_lt_total(a, c);
}

/// Sort names into ascending `hidrawN` order.
pub fn sort_by_index(names: &mut Vec<String>)
    ensures
        in_order(texts(final(names)@), texts(old(names)@)),
{
    let ghost listed = texts(names@);
    let mut sorted: Vec<String> = Vec::new();
    assert(texts(sorted@) =~= Seq::empty());
    proof {
        to_multiset_len(texts(sorted@));
    }
    assert(listed.to_multiset() =~= texts(sorted@).to_multiset().add(texts(names@).to_multiset()));
    while names.len() > 0
        invariant
            sorted_by(texts(sorted@), |a: Seq<char>, b: Seq<char>| name_le(a, b)),
            listed.to_multiset() == texts(sorted@).to_multiset().add(texts(names@).to_multiset()),
        decreases names@.len(),
    {
        let ghost rest = texts(names@);
        let ghost done = texts(sorted@);
        let name = match names.pop() {
            Some(name) => name,
            None => return ,
        };
        proof {
            assert(rest =~= texts(names@).push(name@));
        }
        let at: usize = insertion_point(&sorted, name.as_str());
        let ghost text = name@;
        sorted.insert(at, name);
        proof {
            assert(texts(sorted@) =~= done.insert(at as int, text));
            lemma_insert_keeps_order(done, at as int, text);
            to_multiset_build(texts(names@), text);
            to_multiset_insert(done, at as int, text);
            assert(listed.to_multiset() =~= texts(sorted@).to_multiset().add(
                texts(names@).to_multiset(),
            ));
        }
    }
    assert(texts(names@) =~= Seq::empty());
    proof {
        to_multiset_len(texts(names@));
    }
    assert(listed.to_multiset() =~= texts(sorted@).to_multiset());
    *names = sorted;
}

/// The first place in the sorted row where `name` may stand.
fn insertion_point(sorted: &Vec<String>, name: &str) -> (at: usize)
    requires
        sorted_by(texts(sorted@), |a: Seq<char>, b: Seq<char>| name_le(a, b)),
    ensures
        at <= sorted@.len(),
        forall|k: int| 0 <= k < at ==> !name_le(name@, #[trigger] texts(sorted@)[k]),
        at < sorted@.len() ==> name_le(name@, texts(sorted@)[at as int]),
{
    let mut at: usize = 0;
    while at < sorted.len()
        invariant
            at <= sorted@.len(),
            forall|k: int| 0 <= k < at ==> !name_le(name@, #[trigger] texts(sorted@)[k]),
        decreases sorted@.len() - at,
    {
        assert(texts(sorted@)[at as int] == sorted@[at as int]@);
        if name_at_most(name, sorted[at].as_str()) {
            return at;
        }
        at = at + 1;
    }
    at
}

/// Inserting a name in its place keeps a sorted row sorted.
proof fn lemma_insert_keeps_order(row: Seq<Seq<char>>, at: int, name: Seq<char>)
    requires
        sorted_by(row, |a: Seq<char>, b: Seq<char>| name_le(a, b)),
        0 <= at <= row.len(),
        forall|k: int| 0 <= k < at ==> !name_le(name, #[trigger] row[k]),
        at < row.len() ==> name_le(name, row[at]),
    ensures
        sorted_by(row.insert(at, name), |a: Seq<char>, b: Seq<char>| name_le(a, b)),
{
    let le = |a: Seq<char>, b: Seq<char>| name_le(a, b);
    let out = row.insert(at, name);
    assert forall|i: int, j: int| 0 <= i < j < out.len() implies #[trigger] le(out[i], out[j]) by {
        if j < at {
            assert(le(row[i], row[j]));
        } else if j == at {
            assert(!name_le(name, row[i]));
            lemma_text_lt_total(name, row[i]);
        } else if i < at {
            assert(le(row[i], row[j - 1]));
        } else if i == at {
            if j - 1 > at {
                assert(le(row[at], row[j - 1]));
                lemma_name_le_transitive(name, row[at], row[j - 1]);
            }
        } else {
            assert(le(row[i - 1], row[j - 1]));
        }
    }
}

/// The order in which nodes are considered depends only on which names are
/// listed, not on the order they are listed in.
pub proof fn law_visiting_order_ignores_listing_order(
    listed_a: Seq<Seq<char>>,
    listed_b: Seq<Seq<char>>,
    order_a: Seq<Seq<char>>,
    order_b: Seq<Seq<char>>,
)
    requires
        listed_a.to_multiset() == listed_b.to_multiset(),
        in_order(order_a, listed_a),
        in_order(order_b, listed_b),
    ensures
        order_a == order_b,
{
    let le = |a: Seq<char>, b: Seq<char>| name_le(a, b);
    lemma_name_le_is_total_order();
    lemma_sorted_unique(order_a, order_b, le);
}

/// A name with a number always comes before one without, so an unrecognised
/// entry can never displace a real one; and numbers order names numerically.
pub proof fn law_numbered_names_come_first(a: Seq<char>, b: Seq<char>)
    requires
        index_of(a) is Some,
        index_of(b) is None || index_of(a)->0 < index_of(b)->0,
    ensures
        name_le(a, b),
        !name_le(b, a),
{
    lemma_index_fits(a);
}

/// The number in a name is at most the largest of 32 bits.
proof fn lemma_index_fits(name: Seq<char>)
    ensures
        index_of(name) is Some ==> index_of(name)->0 <= u32::MAX,
{
    let digits = name.skip(6);
    lemma_digits_fit(digits, 10, u32::MAX as nat);
    lemma_digits_fit(digits.skip(1), 10, u32::MAX as nat);
}

// ---------------------------------------------------------------------------
// Search
// ---------------------------------------------------------------------------

/// Whether `info` is the interface searched for.
pub open spec fn is_match(info: UsbInterfaceInfo, vid: u16, pid: u16, interface: u8) -> bool {
    info.vendor_id == vid && info.product_id == pid && info.interface_number == interface
}

/// Whether a finding leaves the search going: no USB parent, or another
/// interface.
pub open spec fn passes_over(
    finding: Result<Option<UsbInterfaceInfo>, HidError>,
    vid: u16,
    pid: u16,
    interface: u8,
) -> bool {
    match finding {
        Ok(Some(info)) => !is_match(info, vid, pid, interface),
        Ok(None) => true,
        Err(_) => false,
    }
}

/// Whether `node` is the node `name` with the given interface.
pub open spec fn is_node<S: SysfsSource>(
    sysfs: S,
    node: HidrawNode,
    name: Seq<char>,
    info: UsbInterfaceInfo,
) -> bool {
    node.name@ == name && node.info == info && sysfs.locates(name, node.path@)
}

/// Whether looking at the nodes of `order` one by one, with the given findings,
/// ends the search with `result`: at the first match, at the first error, or
/// after the last node.
pub open spec fn search_ends<S: SysfsSource>(
    sysfs: S,
    order: Seq<Seq<char>>,
    findings: Seq<Result<Option<UsbInterfaceInfo>, HidError>>,
    vid: u16,
    pid: u16,
    interface: u8,
    result: Result<HidrawNode, HidError>,
) -> bool {
    let last = findings.len() - 1;
    &&& findings.len() <= order.len()
    &&& forall|i: int|
        #![trigger findings[i]]
        0 <= i < findings.len() ==> sysfs.reports(order[i], findings[i])
    &&& forall|i: int|
        #![trigger findings[i]]
        0 <= i < last ==> passes_over(findings[i], vid, pid, interface)
    &&& if last < 0 || passes_over(findings[last], vid, pid, interface) {
        &&& findings.len() == order.len()
        &&& result == Err::<HidrawNode, HidError>(HidError::DeviceNotFound { vid, pid, interface })
    } else {
        match findings[last] {
            Err(e) => result == Err::<HidrawNode, HidError>(e),
            Ok(info) => result is Ok && is_node(sysfs, result->Ok_0, order[last], info->0),
        }
    }
}

/// Whether a search may return `result`.
pub open spec fn finds<S: SysfsSource>(
    sysfs: S,
    vid: u16,
    pid: u16,
    interface: u8,
    result: Result<HidrawNode, HidError>,
) -> bool {
    exists|listed: Result<Vec<String>, HidError>| #[trigger]
        sysfs.lists(listed) && match listed {
            Err(e) => result == Err::<HidrawNode, HidError>(e),
            Ok(names) => exists|
                order: Seq<Seq<char>>,
                findings: Seq<Result<Option<UsbInterfaceInfo>, HidError>>,
            |
                in_order(order, texts(names@)) && #[trigger] search_ends(
                    sysfs,
                    order,
                    findings,
                    vid,
                    pid,
                    interface,
                    result,
                ),
        }
}

/// Find the control node for a device.
///
/// Matches on all three of `vendor_id == vid`, `product_id == pid` and
/// `interface_number == interface`, where `interface` is the device table's
/// `report_index`.
///
/// Nodes are considered in ascending `hidrawN` order regardless of the order
/// the [`SysfsSource`] lists them in, and the first match wins. Nodes with no
/// USB parent (Bluetooth, virtual) are skipped.
///
/// # Errors
///
/// [`HidError::DeviceNotFound`] if nothing matches; whatever the
/// [`SysfsSource`] returns if the walk itself fails.
pub fn find_device<S: SysfsSource>(sysfs: &S, vid: u16, pid: u16, interface: u8) -> (result: Result<
    HidrawNode,
    HidError,
>)
    ensures
        finds(*sysfs, vid, pid, interface, result),
{
    let listed = sysfs.hidraw_names();
    let ghost listing = listed;
    let mut names = match listed {
        Ok(names) => names,
        Err(e) => return Err(e),
    };
    sort_by_index(&mut names);
    let ghost order = texts(names@);
    let ghost mut findings: Seq<Result<Option<UsbInterfaceInfo>, HidError>> = Seq::empty();
    let mut i: usize = 0;
    while i < names.len()
        invariant
            0 <= i <= names@.len(),
            order == texts(names@),
            listing is Ok,
            sysfs.lists(listing),
            in_order(order, texts(listing->Ok_0@)),
            findings.len() == i,
            forall|k: int|
                #![trigger findings[k]]
                0 <= k < i ==> sysfs.reports(order[k], findings[k]) && passes_over(
                    findings[k],
                    vid,
                    pid,
                    interface,
                ),
        decreases names@.len() - i,
    {
        assert(order[i as int] == names@[i as int]@);
        let finding = sysfs.interface_info(names[i].as_str());
        let ghost seen = findings.push(finding);
        assert(forall|k: int| 0 <= k < i ==> seen[k] == findings[k]);
        match finding {
            Err(e) => {
                let result: Result<HidrawNode, HidError> = Err(e);
                assert(search_ends(*sysfs, order, seen, vid, pid, interface, result));
                return result;
            },
            Ok(Some(info)) => {
                if info.vendor_id == vid && info.product_id == pid && info.interface_number
                    == interface {
                    let path = sysfs.device_path(names[i].as_str());
                    let result: Result<HidrawNode, HidError> = Ok(
                        HidrawNode { name: names[i].clone(), path, info },
                    );
                    assert(search_ends(*sysfs, order, seen, vid, pid, interface, result));
                    return result;
                }
            },
            Ok(None) => {},
        }
        proof {
            findings = seen;
        }
        i = i + 1;
    }
    let result: Result<HidrawNode, HidError> = Err(HidError::DeviceNotFound { vid, pid, interface });
    assert(search_ends(*sysfs, order, findings, vid, pid, interface, result));
    result
}

/// The nodes of `order` that belong to Razer, by name and interface, in order.
pub open spec fn razer_rows(
    order: Seq<Seq<char>>,
    findings: Seq<Result<Option<UsbInterfaceInfo>, HidError>>,
) -> Seq<(Seq<char>, UsbInterfaceInfo)>
    decreases findings.len(),
{
    if findings.len() == 0 {
        Seq::empty()
    } else {
        let rest = razer_rows(order, findings.drop_last());
        match findings.last() {
            Ok(Some(info)) => if info.vendor_id == VENDOR_ID {
                rest.push((order[findings.len() - 1], info))
            } else {
                rest
            },
            _ => rest,
        }
    }
}

/// Whether `nodes` are the nodes of `rows`.
pub open spec fn are_nodes<S: SysfsSource>(
    sysfs: S,
    nodes: Seq<HidrawNode>,
    rows: Seq<(Seq<char>, UsbInterfaceInfo)>,
) -> bool {
    &&& nodes.len() == rows.len()
    &&& forall|i: int| 0 <= i < rows.len() ==> is_node(sysfs, #[trigger] nodes[i], rows[i].0, rows[i].1)
}

/// Whether looking at the nodes of `order` one by one, with the given findings,
/// ends the listing with `result`: at the first error, or after the last node.
pub open spec fn listing_ends<S: SysfsSource>(
    sysfs: S,
    order: Seq<Seq<char>>,
    findings: Seq<Result<Option<UsbInterfaceInfo>, HidError>>,
    result: Result<Vec<HidrawNode>, HidError>,
) -> bool {
    let last = findings.len() - 1;
    &&& findings.len() <= order.len()
    &&& forall|i: int|
        #![trigger findings[i]]
        0 <= i < findings.len() ==> sysfs.reports(order[i], findings[i])
    &&& forall|i: int| #![trigger findings[i]] 0 <= i < last ==> findings[i] is Ok
    &&& if last >= 0 && findings[last] is Err {
        result == Err::<Vec<HidrawNode>, HidError>(findings[last]->Err_0)
    } else {
        &&& findings.len() == order.len()
        &&& result is Ok
        &&& are_nodes(sysfs, result->Ok_0@, razer_rows(order, findings))
    }
}

/// Whether a listing may return `result`.
pub open spec fn lists_razer<S: SysfsSource>(
    sysfs: S,
    result: Result<Vec<HidrawNode>, HidError>,
) -> bool {
    exists|listed: Result<Vec<String>, HidError>| #[trigger]
        sysfs.lists(listed) && match listed {
            Err(e) => result == Err::<Vec<HidrawNode>, HidError>(e),
            Ok(names) => exists|
                order: Seq<Seq<char>>,
                findings: Seq<Result<Option<UsbInterfaceInfo>, HidError>>,
            |
                in_order(order, texts(names@)) && #[trigger] listing_ends(
                    sysfs,
                    order,
                    findings,
                    result,
                ),
        }
}

/// Every Razer-vendor hidraw node present, on any interface.
///
/// Returned in ascending `hidrawN` order. Devices absent from the device table
/// are still listed.
///
/// # Errors
///
/// Whatever the [`SysfsSource`] returns if the walk fails.
pub fn list_razer_nodes<S: SysfsSource>(sysfs: &S) -> (result: Result<Vec<HidrawNode>, HidError>)
    ensures
        lists_razer(*sysfs, result),
{
    let listed = sysfs.hidraw_names();
    let ghost listing = listed;
    let mut names = match listed {
        Ok(names) => names,
        Err(e) => return Err(e),
    };
    sort_by_index(&mut names);
    let ghost order = texts(names@);
    let ghost mut findings: Seq<Result<Option<UsbInterfaceInfo>, HidError>> = Seq::empty();
    let mut out: Vec<HidrawNode> = Vec::new();
    let mut i: usize = 0;
    while i < names.len()
        invariant
            0 <= i <= names@.len(),
            order == texts(names@),
            listing is Ok,
            sysfs.lists(listing),
            in_order(order, texts(listing->Ok_0@)),
            findings.len() == i,
            forall|k: int|
                #![trigger findings[k]]
                0 <= k < i ==> sysfs.reports(order[k], findings[k]) && findings[k] is Ok,
            are_nodes(*sysfs, out@, razer_rows(order, findings)),
        decreases names@.len() - i,
    {
        assert(order[i as int] == names@[i as int]@);
        let finding = sysfs.interface_info(names[i].as_str());
        let ghost seen = findings.push(finding);
        assert(seen.drop_last() =~= findings);
        assert(forall|k: int| 0 <= k < i ==> seen[k] == findings[k]);
        match finding {
            Err(e) => {
                let result: Result<Vec<HidrawNode>, HidError> = Err(e);
                assert(listing_ends(*sysfs, order, seen, result));
                return result;
            },
            Ok(Some(info)) => {
                if info.vendor_id == VENDOR_ID {
                    let path = sysfs.device_path(names[i].as_str());
                    out.push(HidrawNode { name: names[i].clone(), path, info });
                }
            },
            Ok(None) => {},
        }
        proof {
            findings = seen;
        }
        i = i + 1;
    }
    let result: Result<Vec<HidrawNode>, HidError> = Ok(out);
    assert(listing_ends(*sysfs, order, findings, result));
    result
}

// ---------------------------------------------------------------------------
// Laws
// ---------------------------------------------------------------------------

/// A node that is found is the one asked for: its vendor, product and interface
/// number are those searched for, and its identity and path are what the source
/// says of its name.
pub proof fn law_a_found_node_is_the_one_asked_for<S: SysfsSource>(
    sysfs: S,
    vid: u16,
    pid: u16,
    interface: u8,
    result: Result<HidrawNode, HidError>,
)
    requires
        finds(sysfs, vid, pid, interface, result),
        result is Ok,
    ensures
        is_match(result->Ok_0.info, vid, pid, interface),
        result->Ok_0.info.vendor_id == vid,
        result->Ok_0.info.product_id == pid,
        result->Ok_0.info.interface_number == interface,
        sysfs.reports(result->Ok_0.name@, Ok(Some(result->Ok_0.info))),
        sysfs.locates(result->Ok_0.name@, result->Ok_0.path@),
{
    let listed = choose|listed: Result<Vec<String>, HidError>| #[trigger]
        sysfs.lists(listed) && match listed {
            Err(e) => result == Err::<HidrawNode, HidError>(e),
            Ok(names) => exists|
                order: Seq<Seq<char>>,
                findings: Seq<Result<Option<UsbInterfaceInfo>, HidError>>,
            |
                in_order(order, texts(names@)) && #[trigger] search_ends(
                    sysfs,
                    order,
                    findings,
                    vid,
                    pid,
                    interface,
                    result,
                ),
        };
    let (order, findings) = choose|
        order: Seq<Seq<char>>,
        findings: Seq<Result<Option<UsbInterfaceInfo>, HidError>>,
    |
        in_order(order, texts(listed->Ok_0@)) && #[trigger] search_ends(
            sysfs,
            order,
            findings,
            vid,
            pid,
            interface,
            result,
        );
    let last = findings.len() - 1;
    assert(sysfs.reports(order[last], findings[last]));
    assert(findings[last] == Ok::<Option<UsbInterfaceInfo>, HidError>(Some(result->Ok_0.info)));
}

/// A listing holds nothing but Razer nodes, in ascending order of their names.
pub proof fn law_a_listing_is_razer_only_and_ordered<S: SysfsSource>(
    sysfs: S,
    result: Result<Vec<HidrawNode>, HidError>,
    i: int,
    j: int,
)
    requires
        lists_razer(sysfs, result),
        result is Ok,
        0 <= i < j < result->Ok_0@.len(),
    ensures
        result->Ok_0@[i].info.vendor_id == VENDOR_ID,
        result->Ok_0@[j].info.vendor_id == VENDOR_ID,
        result->Ok_0@[i].info.vendor_id == 0x1532,
        result->Ok_0@[j].info.vendor_id == 0x1532,
        name_le(result->Ok_0@[i].name@, result->Ok_0@[j].name@),
{
    let listed = choose|listed: Result<Vec<String>, HidError>| #[trigger]
        sysfs.lists(listed) && match listed {
            Err(e) => result == Err::<Vec<HidrawNode>, HidError>(e),
            Ok(names) => exists|
                order: Seq<Seq<char>>,
                findings: Seq<Result<Option<UsbInterfaceInfo>, HidError>>,
            |
                in_order(order, texts(names@)) && #[trigger] listing_ends(
                    sysfs,
                    order,
                    findings,
                    result,
                ),
        };
    let (order, findings) = choose|
        order: Seq<Seq<char>>,
        findings: Seq<Result<Option<UsbInterfaceInfo>, HidError>>,
    |
        in_order(order, texts(listed->Ok_0@)) && #[trigger] listing_ends(
            sysfs,
            order,
            findings,
            result,
        );
    let rows = razer_rows(order, findings);
    let nodes = result->Ok_0@;
    assert(is_node(sysfs, nodes[i], rows[i].0, rows[i].1));
    assert(is_node(sysfs, nodes[j], rows[j].0, rows[j].1));
    let _ = lemma_row_origin(order, findings, i);
    let _ = lemma_row_origin(order, findings, j);
    lemma_row_origins_ascend(order, findings, i, j);
    let le = |a: Seq<char>, b: Seq<char>| name_le(a, b);
    let (x, y) = choose|x: int, y: int|
        0 <= x < y < findings.len() && #[trigger] order[x] == rows[i].0 && #[trigger] order[y]
            == rows[j].0;
    assert(le(order[x], order[y]));
}

/// A row stems from a node that was looked at, and belongs to Razer.
proof fn lemma_row_origin(
    order: Seq<Seq<char>>,
    findings: Seq<Result<Option<UsbInterfaceInfo>, HidError>>,
    i: int,
) -> (x: int)
    requires
        0 <= i < razer_rows(order, findings).len(),
    ensures
        0 <= x < findings.len(),
        order[x] == razer_rows(order, findings)[i].0,
        razer_rows(order, findings)[i].1.vendor_id == VENDOR_ID,
    decreases findings.len(),
{
    let front = findings.drop_last();
    if i < razer_rows(order, front).len() {
        lemma_row_origin(order, front, i)
    } else {
        findings.len() - 1
    }
}

/// A later row stems from a later node.
proof fn lemma_row_origins_ascend(
    order: Seq<Seq<char>>,
    findings: Seq<Result<Option<UsbInterfaceInfo>, HidError>>,
    i: int,
    j: int,
)
    requires
        0 <= i < j < razer_rows(order, findings).len(),
    ensures
        exists|x: int, y: int|
            0 <= x < y < findings.len() && #[trigger] order[x] == razer_rows(order, findings)[i].0
                && #[trigger] order[y] == razer_rows(order, findings)[j].0,
    decreases findings.len(),
{
    let front = findings.drop_last();
    let rows = razer_rows(order, front);
    if j < rows.len() {
        lemma_row_origins_ascend(order, front, i, j);
        let (x, y) = choose|x: int, y: int|
            0 <= x < y < front.len() && #[trigger] order[x] == rows[i].0 && #[trigger] order[y]
                == rows[j].0;
        assert(order[x] == razer_rows(order, findings)[i].0);
        assert(order[y] == razer_rows(order, findings)[j].0);
    } else {
        let x = lemma_row_origin(order, front, i);
        let y = findings.len() - 1;
        assert(order[x] == razer_rows(order, findings)[i].0);
        assert(order[y] == razer_rows(order, findings)[j].0);
    }
}

/// A search that ends with a node, or with none, looked at every node that comes
/// before: each was passed over for want of a USB parent or because one of its
/// three numbers differs. A search that ends with none looked at all of them.
pub proof fn law_a_search_passes_over_nothing_that_matches<S: SysfsSource>(
    sysfs: S,
    vid: u16,
    pid: u16,
    interface: u8,
    result: Result<HidrawNode, HidError>,
) -> (seen: (Seq<Seq<char>>, Seq<Option<UsbInterfaceInfo>>))
    requires
        finds(sysfs, vid, pid, interface, result),
        result is Ok || result == Err::<HidrawNode, HidError>(
            HidError::DeviceNotFound { vid, pid, interface },
        ),
        forall|e: HidError| e is DeviceNotFound ==> !#[trigger] sysfs.lists(Err(e)),
        forall|e: HidError, name: Seq<char>|
            e is DeviceNotFound ==> !#[trigger] sysfs.reports(name, Err(e)),
    ensures
        exists|names: Vec<String>| #[trigger]
            sysfs.lists(Ok(names)) && seen.0.to_multiset() == texts(names@).to_multiset(),
        forall|i: int, j: int|
            0 <= i < j < seen.0.len() ==> name_le(#[trigger] seen.0[i], #[trigger] seen.0[j]),
        seen.1.len() <= seen.0.len(),
        forall|i: int|
            0 <= i < seen.1.len() ==> {
                &&& sysfs.reports(seen.0[i], Ok(#[trigger] seen.1[i]))
                &&& seen.1[i] is Some ==> seen.1[i]->0.vendor_id != vid || seen.1[i]->0.product_id
                    != pid || seen.1[i]->0.interface_number != interface
            },
        result is Ok ==> seen.1.len() < seen.0.len() && result->Ok_0.name@
            == seen.0[seen.1.len() as int],
        result is Err ==> seen.1.len() == seen.0.len(),
{
    let listed = choose|listed: Result<Vec<String>, HidError>| #[trigger]
        sysfs.lists(listed) && match listed {
            Err(e) => result == Err::<HidrawNode, HidError>(e),
            Ok(names) => exists|
                order: Seq<Seq<char>>,
                findings: Seq<Result<Option<UsbInterfaceInfo>, HidError>>,
            |
                in_order(order, texts(names@)) && #[trigger] search_ends(
                    sysfs,
                    order,
                    findings,
                    vid,
                    pid,
                    interface,
                    result,
                ),
        };
    assert(listed is Ok);
    let (order, findings) = choose|
        order: Seq<Seq<char>>,
        findings: Seq<Result<Option<UsbInterfaceInfo>, HidError>>,
    |
        in_order(order, texts(listed->Ok_0@)) && #[trigger] search_ends(
            sysfs,
            order,
            findings,
            vid,
            pid,
            interface,
            result,
        );
    let n: nat = if result is Ok {
        (findings.len() - 1) as nat
    } else {
        findings.len()
    };
    let last = findings.len() - 1;
    if last >= 0 && findings[last] is Err {
        assert(sysfs.reports(order[last], Err(findings[last]->Err_0)));
        assert(false);
    }
    let passed = Seq::new(n, |i: int| findings[i]->Ok_0);
    assert forall|i: int| 0 <= i < passed.len() implies {
        &&& sysfs.reports(order[i], Ok(#[trigger] passed[i]))
        &&& passed[i] is Some ==> passed[i]->0.vendor_id != vid || passed[i]->0.product_id != pid
            || passed[i]->0.interface_number != interface
    } by {
        assert(passes_over(findings[i], vid, pid, interface));
        assert(findings[i] == Ok::<Option<UsbInterfaceInfo>, HidError>(passed[i]));
        assert(sysfs.reports(order[i], findings[i]));
    }
    let le = |a: Seq<char>, b: Seq<char>| name_le(a, b);
    assert forall|i: int, j: int| 0 <= i < j < order.len() implies name_le(
        #[trigger] order[i],
        #[trigger] order[j],
    ) by {
        assert(le(order[i], order[j]));
    }
    assert(listed == Ok::<Vec<String>, HidError>(listed->Ok_0));
    (order, passed)
}

/// A listing leaves out no Razer node, whatever its product and interface, and
/// lists each as often as it is there: every node was looked at, and those with
/// the vendor id 0x1532 are the ones listed.
pub proof fn law_every_razer_node_is_listed<S: SysfsSource>(
    sysfs: S,
    result: Result<Vec<HidrawNode>, HidError>,
) -> (seen: (Seq<Seq<char>>, Seq<Option<UsbInterfaceInfo>>))
    requires
        lists_razer(sysfs, result),
        result is Ok,
    ensures
        exists|names: Vec<String>| #[trigger]
            sysfs.lists(Ok(names)) && seen.0.to_multiset() == texts(names@).to_multiset(),
        seen.1.len() == seen.0.len(),
        forall|i: int|
            0 <= i < seen.1.len() ==> sysfs.reports(seen.0[i], Ok(#[trigger] seen.1[i])),
        forall|i: int|
            0 <= i < seen.1.len() && (#[trigger] seen.1[i]) is Some && seen.1[i]->0.vendor_id
                == 0x1532 ==> exists|k: int|
                0 <= k < result->Ok_0@.len() && is_node(
                    sysfs,
                    #[trigger] result->Ok_0@[k],
                    seen.0[i],
                    seen.1[i]->0,
                ),
        result->Ok_0@.len() == razer_count(seen.1),
{
    let listed = choose|listed: Result<Vec<String>, HidError>| #[trigger]
        sysfs.lists(listed) && match listed {
            Err(e) => result == Err::<Vec<HidrawNode>, HidError>(e),
            Ok(names) => exists|
                order: Seq<Seq<char>>,
                findings: Seq<Result<Option<UsbInterfaceInfo>, HidError>>,
            |
                in_order(order, texts(names@)) && #[trigger] listing_ends(
                    sysfs,
                    order,
                    findings,
                    result,
                ),
        };
    let (order, findings) = choose|
        order: Seq<Seq<char>>,
        findings: Seq<Result<Option<UsbInterfaceInfo>, HidError>>,
    |
        in_order(order, texts(listed->Ok_0@)) && #[trigger] listing_ends(
            sysfs,
            order,
            findings,
            result,
        );
    assert(listed == Ok::<Vec<String>, HidError>(listed->Ok_0));
    let found = Seq::new(findings.len(), |i: int| findings[i]->Ok_0);
    let rows = razer_rows(order, findings);
    assert forall|i: int| 0 <= i < found.len() implies findings[i] == Ok::<
        Option<UsbInterfaceInfo>,
        HidError,
    >(#[trigger] found[i]) by {
        assert(findings[i] is Ok);
    }
    assert forall|i: int| 0 <= i < found.len() implies sysfs.reports(
        order[i],
        Ok(#[trigger] found[i]),
    ) by {
        assert(sysfs.reports(order[i], findings[i]));
    }
    assert forall|i: int|
        0 <= i < found.len() && (#[trigger] found[i]) is Some && found[i]->0.vendor_id
            == 0x1532 implies exists|k: int|
        0 <= k < result->Ok_0@.len() && is_node(
            sysfs,
            #[trigger] result->Ok_0@[k],
            order[i],
            found[i]->0,
        ) by {
        let k = lemma_razer_row_is_there(order, findings, i);
        assert(is_node(sysfs, result->Ok_0@[k], rows[k].0, rows[k].1));
    }
    lemma_rows_are_counted(order, findings, found);
    (order, found)
}

/// How many of the interfaces have the vendor id 0x1532.
pub open spec fn razer_count(found: Seq<Option<UsbInterfaceInfo>>) -> nat {
    found.filter(|f: Option<UsbInterfaceInfo>| f is Some && f->0.vendor_id == 0x1532).len()
}

/// The row of a Razer node.
proof fn lemma_razer_row_is_there(
    order: Seq<Seq<char>>,
    findings: Seq<Result<Option<UsbInterfaceInfo>, HidError>>,
    i: int,
) -> (k: int)
    requires
        0 <= i < findings.len(),
        findings[i] is Ok,
        findings[i]->Ok_0 is Some,
        findings[i]->Ok_0->0.vendor_id == 0x1532,
    ensures
        0 <= k < razer_rows(order, findings).len(),
        razer_rows(order, findings)[k] == (order[i], findings[i]->Ok_0->0),
    decreases findings.len(),
{
    if i < findings.len() - 1 {
        lemma_razer_row_is_there(order, findings.drop_last(), i)
    } else {
        razer_rows(order, findings).len() - 1
    }
}

/// There are as many rows as Razer nodes.
proof fn lemma_rows_are_counted(
    order: Seq<Seq<char>>,
    findings: Seq<Result<Option<UsbInterfaceInfo>, HidError>>,
    found: Seq<Option<UsbInterfaceInfo>>,
)
    requires
        found.len() == findings.len(),
        forall|i: int|
            0 <= i < found.len() ==> findings[i] == Ok::<Option<UsbInterfaceInfo>, HidError>(
                #[trigger] found[i],
            ),
    ensures
        razer_rows(order, findings).len() == razer_count(found),
    decreases findings.len(),
{
    reveal(Seq::filter);
    if findings.len() > 0 {
        lemma_rows_are_counted(order, findings.drop_last(), found.drop_last());
        assert(findings.last() == Ok::<Option<UsbInterfaceInfo>, HidError>(
            found[found.len() - 1],
        ));
    }
}

/// The name `hidrawN` has the number N, and such names are in the order of their
/// numbers: `hidraw2` comes before `hidraw10`.
pub proof fn law_names_go_by_their_numbers(m: nat, n: nat)
    requires
        m <= u32::MAX,
        n <= u32::MAX,
    ensures
        index_of("hidraw"@ + decimal(n)) == Some(n),
        m < n ==> name_le("hidraw"@ + decimal(m), "hidraw"@ + decimal(n)) && !name_le(
            "hidraw"@ + decimal(n),
            "hidraw"@ + decimal(m),
        ),
{
    reveal_strlit("hidraw");
    law_decimal_reads_back(n, u32::MAX as nat);
    law_decimal_reads_back(m, u32::MAX as nat);
    assert(("hidraw"@ + decimal(n)).skip(6) =~= decimal(n));
    assert(("hidraw"@ + decimal(m)).skip(6) =~= decimal(m));
    assert(("hidraw"@ + decimal(n)).take(6) =~= "hidraw"@);
    assert(("hidraw"@ + decimal(m)).take(6) =~= "hidraw"@);
}

/// Only a name that starts with `hidraw` has a number.
pub proof fn law_other_names_have_no_number(name: Seq<char>)
    requires
        index_of(name) is Some,
    ensures
        name.len() > 6,
        name.take(6) == seq!['h', 'i', 'd', 'r', 'a', 'w'],
        parsed(name.skip(6), 10, 0xFFFF_FFFF) == Ok::<nat, IntFault>(index_of(name)->0),
{
    reveal_strlit("hidraw");
    assert("hidraw"@ =~= seq!['h', 'i', 'd', 'r', 'a', 'w']);
    assert(name.skip(6).len() > 0);
}

}

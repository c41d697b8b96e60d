//! `razerd list`: the Razer nodes present, as a table.
use vstd::prelude::*;
use vstd::string::StringExecFns;

use crate::devices::table::{entry_for, lookup};
use crate::hid::enumerate::HidrawNode;
use crate::text::laws::{
    law_contained_means_cut_out, law_decimal_reads_back, law_hexadecimal_reads_back,
    law_padding_only_fills, lemma_contains_inside,
};
use crate::text::{
    contains, decimal, pad_left, pad_right, parsed, push_decimal, push_pad_left, push_pad_right,
    push_upper_hex, starts_with, upper_hex, IntFault,
};

verus! {

/// The name of the supported device with a product id, or a dash.
pub open spec fn supported_name(pid: u16) -> Seq<char> {
    match entry_for(pid) {
        Some(entry) => entry.name@,
        None => "-"@,
    }
}

/// One row of the table.
pub open spec fn row_text(node: HidrawNode) -> Seq<char> {
    pad_right(node.name@, 10) + " "@ + pad_right(node.path@, 16) + " 0x"@ + upper_hex(
        node.info.product_id as nat,
        4,
    ) + " "@ + pad_left(decimal(node.info.interface_number as nat), 6, ' ') + "  "@
        + supported_name(node.info.product_id) + "\n"@
}

/// All rows of the table.
pub open spec fn rows_text(nodes: Seq<HidrawNode>) -> Seq<char>
    decreases nodes.len(),
{
    if nodes.len() == 0 {
        Seq::empty()
    } else {
        rows_text(nodes.drop_last()) + row_text(nodes.last())
    }
}

/// What is printed for the nodes found.
pub open spec fn listing_text(nodes: Seq<HidrawNode>) -> Seq<char> {
    if nodes.len() == 0 {
        "No Razer hidraw nodes found.\n"@
    } else {
        "NODE       PATH                PID  IFACE  SUPPORTED\n"@ + rows_text(nodes)
    }
}

/// Appends one row of the table.
fn push_row(out: &mut String, node: &HidrawNode)
    ensures
        final(out)@ == old(out)@ + row_text(*node),
{
    push_pad_right(out, node.name.as_str(), 10);
    out.append(" ");
    push_pad_right(out, node.path.as_str(), 16);
    out.append(" 0x");
    push_upper_hex(out, node.info.product_id as u64, 4);
    out.append(" ");
    let mut number = String::new();
    push_decimal(&mut number, node.info.interface_number as u64);
    assert(number@ =~= decimal(node.info.interface_number as nat));
    push_pad_left(out, number.as_str(), 6, ' ');
    out.append("  ");
    match lookup(node.info.product_id) {
        Some(entry) => out.append(entry.name),
        None => out.append("-"),
    }
    out.append("\n");
    assert(out@ =~= old(out)@ + row_text(*node));
}

/// What is printed for the nodes found: a heading and one row per node, or a
/// line that says there are none.
pub fn listing(nodes: &Vec<HidrawNode>) -> (text: String)
    ensures
        text@ == listing_text(nodes@),
{
    if nodes.len() == 0 {
        return "No Razer hidraw nodes found.\n".to_owned();
    }
    let mut out = "NODE       PATH                PID  IFACE  SUPPORTED\n".to_owned();
    let ghost heading = out@;
    let mut i: usize = 0;
    assert(nodes@.take(0) =~= Seq::empty());
    assert(out@ =~= heading + rows_text(nodes@.take(0)));
    while i < nodes.len()
        invariant
            0 <= i <= nodes@.len(),
            out@ == heading + rows_text(nodes@.take(i as int)),
        decreases nodes@.len() - i,
    {
        push_row(&mut out, &nodes[i]);
        proof {
            assert(nodes@.take(i + 1).drop_last() =~= nodes@.take(i as int));
            assert(nodes@.take(i + 1).last() == nodes@[i as int]);
            assert(out@ =~= heading + rows_text(nodes@.take(i + 1)));
        }
        i = i + 1;
    }
    assert(nodes@.take(i as int) =~= nodes@);
    out
}

/// A row is the node's name and path in columns of 10 and 16, its product id as
/// four hexadecimal digits, its interface number in a column of 6, and the name
/// of the supported device.
pub proof fn law_a_row_gives_the_node(node: HidrawNode) -> (columns: (Seq<char>, Seq<char>))
    ensures
        row_text(node) == columns.0 + " "@ + columns.1 + (" 0x"@ + upper_hex(
            node.info.product_id as nat,
            4,
        ) + " "@) + pad_left(decimal(node.info.interface_number as nat), 6, ' ') + ("  "@
            + supported_name(node.info.product_id) + "\n"@),
        starts_with(columns.0, node.name@),
        starts_with(columns.1, node.path@),
        node.name@.len() <= 10 ==> columns.0.len() == 10,
        node.path@.len() <= 16 ==> columns.1.len() == 16,
        node.name@.len() > 10 ==> columns.0 == node.name@,
        node.path@.len() > 16 ==> columns.1 == node.path@,
        parsed(upper_hex(node.info.product_id as nat, 4), 16, 0xFFFF) == Ok::<nat, IntFault>(
            node.info.product_id as nat,
        ),
        parsed(decimal(node.info.interface_number as nat), 10, 0xFF) == Ok::<nat, IntFault>(
            node.info.interface_number as nat,
        ),
{
    let a = pad_right(node.name@, 10);
    let b = pad_right(node.path@, 16);
    law_padding_only_fills(node.name@, 10, ' ');
    law_padding_only_fills(node.path@, 16, ' ');
    law_hexadecimal_reads_back(node.info.product_id as nat, 4, 0xFFFF);
    law_decimal_reads_back(node.info.interface_number as nat, 0xFF);
    if node.name@.len() > 10 {
        assert(a =~= node.name@);
    }
    if node.path@.len() > 16 {
        assert(b =~= node.path@);
    }
    lemma_row_grouping(
        a + " "@ + b,
        " 0x"@,
        upper_hex(node.info.product_id as nat, 4),
        " "@,
        pad_left(decimal(node.info.interface_number as nat), 6, ' '),
        "  "@,
        supported_name(node.info.product_id),
        "\n"@,
    );
    (a, b)
}

/// The pieces of a row can be put together in either grouping.
proof fn lemma_row_grouping(
    a: Seq<char>,
    b: Seq<char>,
    c: Seq<char>,
    d: Seq<char>,
    e: Seq<char>,
    f: Seq<char>,
    g: Seq<char>,
    h: Seq<char>,
)
    ensures
        a + b + c + d + e + f + g + h == a + (b + c + d) + e + (f + g + h),
{
    assert(a + b + c + d + e + f + g + h =~= a + (b + c + d) + e + (f + g + h));
}

/// A supported device goes by its name in the device table, every other by a
/// dash.
pub proof fn law_unsupported_devices_have_a_dash(pid: u16)
    ensures
        entry_for(pid) is Some ==> supported_name(pid) == entry_for(pid)->0.name@,
        entry_for(pid) is None ==> supported_name(pid) == "-"@,
{
}

/// Rows are printed one after another, none left out: what two runs of nodes
/// print together is what they print apart, and one node prints its own row.
pub proof fn law_rows_are_printed_one_after_another(
    a: Seq<HidrawNode>,
    b: Seq<HidrawNode>,
    node: HidrawNode,
)
    ensures
        rows_text(a + b) == rows_text(a) + rows_text(b),
        rows_text(seq![node]) == row_text(node),
    decreases b.len(),
{
    assert(seq![node].drop_last() =~= Seq::empty());
    assert(rows_text(Seq::empty()) =~= Seq::<char>::empty());
    lemma_regroup(Seq::empty(), row_text(node), Seq::empty());
    if b.len() > 0 {
        assert((a + b).drop_last() =~= a + b.drop_last());
        assert((a + b).last() == b.last());
        law_rows_are_printed_one_after_another(a, b.drop_last(), node);
        lemma_regroup(rows_text(a), rows_text(b.drop_last()), row_text(b.last()));
    } else {
        assert(a + b =~= a);
        assert(b =~= Seq::empty());
        lemma_regroup(Seq::empty(), rows_text(a), Seq::empty());
    }
}

/// Texts can be put together in either grouping, and nothing adds nothing.
proof fn lemma_regroup(a: Seq<char>, b: Seq<char>, c: Seq<char>)
    ensures
        a + (b + c) == (a + b) + c,
        b + Seq::<char>::empty() == b,
        Seq::<char>::empty() + b == b,
{
    assert(a + (b + c) =~= (a + b) + c);
    assert(b + Seq::<char>::empty() =~= b);
    assert(Seq::<char>::empty() + b =~= b);
}

/// A listing is the heading and the rows of all nodes, or the line that says
/// there are none.
pub proof fn law_a_listing_has_a_row_for_every_node(nodes: Seq<HidrawNode>, i: int)
    ensures
        nodes.len() == 0 <==> listing_text(nodes) == "No Razer hidraw nodes found.\n"@,
        nodes.len() > 0 ==> listing_text(nodes)
            == "NODE       PATH                PID  IFACE  SUPPORTED\n"@ + rows_text(nodes),
        0 <= i < nodes.len() ==> contains(listing_text(nodes), row_text(nodes[i])),
{
    reveal_strlit("No Razer hidraw nodes found.\n");
    reveal_strlit("NODE       PATH                PID  IFACE  SUPPORTED\n");
    if nodes.len() > 0 {
        assert(listing_text(nodes)[1] == 'O');
        assert("No Razer hidraw nodes found.\n"@[1] == 'o');
    }
    if 0 <= i < nodes.len() {
        let front = nodes.take(i);
        let back = nodes.skip(i + 1);
        let heading = "NODE       PATH                PID  IFACE  SUPPORTED\n"@;
        assert(nodes =~= (front + seq![nodes[i]]) + back);
        law_rows_are_printed_one_after_another(front + seq![nodes[i]], back, nodes[i]);
        law_rows_are_printed_one_after_another(front, seq![nodes[i]], nodes[i]);
        law_contained_means_cut_out(rows_text(front), row_text(nodes[i]), rows_text(back));
        lemma_contains_inside(heading, rows_text(nodes), Seq::empty(), row_text(nodes[i]));
        lemma_regroup(heading, heading + rows_text(nodes), Seq::empty());
    }
}

}

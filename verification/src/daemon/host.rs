//! What the host says about a device: its USB device number, the kernel driver
//! that owns it, and how often something fell off the bus.
use vstd::prelude::*;
use vstd::string::StringExecFns;
use vstd::utf8::{encode_utf8, is_ascii_chars};

use crate::text::laws::{
    all_space, law_contained_means_cut_out, law_decimal_reads_back, law_hexadecimal_keeps_its_case,
    law_hexadecimal_reads_back, law_numbers_are_read_exactly, law_trim_takes_only_outer_space,
    law_trim_uncovers_the_text, numeral, unsigned_part,
};
use crate::text::{
    chars_of, contains, count_lines_with, decimal, find, is_space, lines_with, parse_unsigned,
    parsed, push_upper_hex, trim, trimmed, upper_hex, IntFault,
};

verus! {

/// The USB device number in the text of a `devnum` attribute, if it is one.
pub open spec fn devnum_in(raw: Seq<char>) -> Option<nat> {
    match parsed(trim(raw), 10, u64::MAX as nat) {
        Ok(n) => Some(n),
        Err(_) => None,
    }
}

/// The USB device number in the text of a `devnum` attribute, if it is one.
pub fn parse_devnum(raw: &str) -> (devnum: Option<u64>)
    ensures
        match devnum {
            Some(n) => devnum_in(raw@) == Some(n as nat),
            None => devnum_in(raw@) is None,
        },
{
    let text = trimmed(raw);
    let digits = chars_of(text.as_str());
    assert(digits@.skip(0) =~= digits@);
    match parse_unsigned(&digits, 0, 10, u64::MAX) {
        Ok(n) => Some(n),
        Err(_) => None,
    }
}

/// Where the climb from a device directory to the USB device stands.
#[derive(Debug, Clone, Copy, PartialEq, Eq, Structural)]
pub enum Climb {
    /// This directory is the USB device.
    Here,
    /// Look at the parent.
    Parent,
    /// There is no USB device above.
    Nowhere,
}

/// What to do at a directory that does or does not hold a `devnum`, with the
/// given parent.
pub open spec fn climb_from(has_devnum: bool, parent: Option<Seq<char>>) -> Climb {
    if has_devnum {
        Climb::Here
    } else {
        match parent {
            Some(dir) => if encode_utf8(dir).len() > 4 {
                Climb::Parent
            } else {
                Climb::Nowhere
            },
            None => Climb::Nowhere,
        }
    }
}

/// What to do at a directory that does or does not hold a `devnum`, with the
/// given parent.
///
/// The climb ends where it would leave `/sys`.
pub fn climb(has_devnum: bool, parent: Option<&str>) -> (next: Climb)
    ensures
        next == climb_from(
            has_devnum,
            match parent {
                Some(dir) => Some(dir@),
                None => None,
            },
        ),
{
    if has_devnum {
        return Climb::Here;
    }
    match parent {
        Some(dir) => {
            let len: usize = dir.as_bytes().len();
            if len > 4 {
                Climb::Parent
            } else {
                Climb::Nowhere
            }
        },
        None => Climb::Nowhere,
    }
}

/// What `str::to_uppercase` makes of a text.
pub uninterp spec fn uppercased(text: Seq<char>) -> Seq<char>;

/// An ASCII letter in upper case; any other character as it is.
pub open spec fn ascii_upper(c: char) -> char {
    if 97 <= c as int <= 122 {
        (c as int - 32) as char
    } else {
        c
    }
}

/// Upper-cases a text through `str::to_uppercase`.
///
/// The contract claims that the result is a function of the text, and that of a
/// text in ASCII exactly the letters change, each to its capital. What happens
/// to characters beyond ASCII is left unsaid.
#[verifier::external_body]
fn uppercase(text: &str) -> (upper: String)
    ensures
        upper@ == uppercased(text@),
        is_ascii_chars(text@) ==> upper@ == text@.map_values(|c: char| ascii_upper(c)),
{
    text.to_uppercase()
}

/// How a product id stands in the name of a HID device, between the vendor id
/// and the instance number.
pub open spec fn product_mark(pid: u16) -> Seq<char> {
    ":"@ + upper_hex(pid as nat, 4) + "."@
}

/// Whether an upper-cased HID device name carries the product id.
pub fn carries_product(upper: &str, pid: u16) -> (r: bool)
    ensures
        r == contains(upper@, product_mark(pid)),
{
    let mut mark = ":".to_owned();
    push_upper_hex(&mut mark, pid as u64, 4);
    mark.append(".");
    find(upper, mark.as_str())
}

/// Whether an entry under `/sys/bus/hid/devices`, such as
/// `0003:1532:028D.0004`, belongs to the product.
pub fn is_hid_device_of(name: &str, pid: u16) -> (r: bool)
    ensures
        r == contains(uppercased(name@), product_mark(pid)),
        is_ascii_chars(name@) ==> r == contains(
            name@.map_values(|c: char| ascii_upper(c)),
            product_mark(pid),
        ),
{
    let upper = uppercase(name);
    carries_product(upper.as_str(), pid)
}

/// How many lines of the kernel log speak of a USB disconnect.
pub fn count_disconnects(log: &str) -> (n: u64)
    ensures
        n == lines_with(log@, "USB disconnect"@),
{
    proof {
        reveal_strlit("USB disconnect");
    }
    count_lines_with(log, "USB disconnect")
}

// ---------------------------------------------------------------------------
// Laws
// ---------------------------------------------------------------------------

/// A device number is read whatever whitespace stands around it, and a text
/// without its digits is none.
pub proof fn law_a_devnum_is_read_back(n: nat, before: Seq<char>, after: Seq<char>)
    requires
        n <= u64::MAX,
        all_space(before),
        all_space(after),
    ensures
        devnum_in(before + decimal(n) + after) == Some(n),
        devnum_in(before) is None,
{
    let text = decimal(n);
    law_decimal_reads_back(n, u64::MAX as nat);
    assert(!is_space(text[0]));
    assert(!is_space(text[text.len() - 1]));
    law_trim_uncovers_the_text(before, text, after);
    let (from, to) = law_trim_takes_only_outer_space(before);
    if from < to {
        assert(is_space(before[from]));
    }
    assert(trim(before).len() == 0);
}

/// What is read as a device number is the number that the digits in the trimmed
/// text write.
pub proof fn law_a_devnum_is_its_digits(raw: Seq<char>)
    requires
        devnum_in(raw) is Some,
    ensures
        devnum_in(raw)->0 == numeral(unsigned_part(trim(raw)), 10),
        devnum_in(raw)->0 <= u64::MAX,
{
    law_numbers_are_read_exactly(trim(raw), 10, u64::MAX as nat);
}

/// The climb stops at a directory with a device number, ends without one at the
/// root or where the parent is no longer than `/sys`, and otherwise goes on.
pub proof fn law_where_the_climb_ends(has_devnum: bool, parent: Option<Seq<char>>)
    ensures
        climb_from(has_devnum, parent) == Climb::Here <==> has_devnum,
        climb_from(has_devnum, parent) == Climb::Parent <==> !has_devnum && parent is Some
            && encode_utf8(parent->0).len() >= 5,
        climb_from(has_devnum, parent) == Climb::Nowhere <==> !has_devnum && (parent is None
            || encode_utf8(parent->0).len() <= 4),
{
}

/// The mark of a product is a colon, the product id as four hexadecimal digits,
/// and a point; two products never share a mark.
pub proof fn law_each_product_has_its_mark(a: u16, b: u16)
    ensures
        product_mark(a).len() == 6,
        product_mark(a)[0] == ':',
        product_mark(a)[5] == '.',
        parsed(product_mark(a).subrange(1, 5), 16, 0xFFFF) == Ok::<nat, IntFault>(a as nat),
        product_mark(a) == product_mark(b) ==> a == b,
        forall|i: int| 0 <= i < 6 ==> !('a' <= #[trigger] product_mark(a)[i] <= 'z'),
{
    reveal_strlit(":");
    reveal_strlit(".");
    law_hexadecimal_reads_back(a as nat, 4, 0xFFFF);
    law_hexadecimal_reads_back(b as nat, 4, 0xFFFF);
    law_hexadecimal_keeps_its_case(a as nat, 4, 0);
    law_hexadecimal_keeps_its_case(b as nat, 4, 0);
    assert(product_mark(a).subrange(1, 5) =~= upper_hex(a as nat, 4));
    assert(product_mark(b).subrange(1, 5) =~= upper_hex(b as nat, 4));
    assert forall|i: int| 0 <= i < 6 implies !('a' <= #[trigger] product_mark(a)[i] <= 'z') by {
        if 1 <= i < 5 {
            law_hexadecimal_keeps_its_case(a as nat, 4, i - 1);
            assert(product_mark(a)[i] == upper_hex(a as nat, 4)[i - 1]);
        }
    }
}

/// A name with the product id between a colon and a point carries the product,
/// whatever stands around it.
pub proof fn law_a_name_carries_its_product(before: Seq<char>, pid: u16, after: Seq<char>)
    ensures
        contains(before + (":"@ + upper_hex(pid as nat, 4) + "."@) + after, product_mark(pid)),
{
    law_contained_means_cut_out(before, product_mark(pid), after);
}

/// Upper-casing moves the 26 small letters to their capitals and nothing else.
pub proof fn law_ascii_capitals(c: char)
    ensures
        'a' <= c <= 'z' ==> 'A' <= ascii_upper(c) <= 'Z' && ascii_upper(c) as int + 32 == c as int,
        !('a' <= c <= 'z') ==> ascii_upper(c) == c,
{
}

}

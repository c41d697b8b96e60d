//! The commands a device supports, as a bitset.
use vstd::prelude::*;

verus! {

/// A bitset of the commands a [`crate::devices::DeviceEntry`] supports.
#[derive(Debug, Clone, Copy, PartialEq, Eq, Structural)]
pub struct Capabilities(pub u32);

impl Capabilities {
    /// Whether every flag of `other` is set.
    pub open spec fn has(self, other: Capabilities) -> bool {
        self.0 & other.0 == other.0
    }

    /// No capabilities set.
    pub fn none() -> (c: Self)
        ensures
            c == Capabilities(0),
    {
        Capabilities(0)
    }

    /// Setting and reading the device mode.
    pub fn device_mode() -> (c: Self)
        ensures
            c == Capabilities(0x01),
    {
        Capabilities(0x01)
    }

    /// Reading the firmware version.
    pub fn firmware_version() -> (c: Self)
        ensures
            c == Capabilities(0x02),
    {
        Capabilities(0x02)
    }

    /// Reading the serial number.
    pub fn serial() -> (c: Self)
        ensures
            c == Capabilities(0x04),
    {
        Capabilities(0x04)
    }

    /// Setting and reading the brightness.
    pub fn brightness() -> (c: Self)
        ensures
            c == Capabilities(0x08),
    {
        Capabilities(0x08)
    }

    /// Setting the static effect.
    pub fn static_effect() -> (c: Self)
        ensures
            c == Capabilities(0x10),
    {
        Capabilities(0x10)
    }

    /// Setting and reading the polling rate, legacy or v2.
    pub fn poll_rate() -> (c: Self)
        ensures
            c == Capabilities(0x20),
    {
        Capabilities(0x20)
    }

    /// Returns `true` if `self` contains every flag set in `other`.
    pub fn contains(self, other: Self) -> (r: bool)
        ensures
            r == self.has(other),
    {
        (self.0 & other.0) == other.0
    }

    /// Returns the union of `self` and `other`.
    pub fn union(self, other: Self) -> (c: Self)
        ensures
            c == Capabilities(self.0 | other.0),
    {
        Capabilities(self.0 | other.0)
    }

    /// Returns the raw bitmask.
    pub fn bits(self) -> (bits: u32)
        ensures
            bits == self.0,
    {
        self.0
    }
}

impl vstd::std_specs::ops::BitOrSpecImpl for Capabilities {
    open spec fn obeys_bitor_spec() -> bool {
        true
    }

    open spec fn bitor_req(self, rhs: Self) -> bool {
        true
    }

    open spec fn bitor_spec(self, rhs: Self) -> Self {
        Capabilities(self.0 | rhs.0)
    }
}

impl core::ops::BitOr for Capabilities {
    type Output = Self;

    fn bitor(self, rhs: Self) -> (c: Self) {
        self.union(rhs)
    }
}

/// A union contains exactly the sets that split over its members flag by flag:
/// both members are in it, and a single flag is in it only if it is in one of
/// them.
pub proof fn law_union_holds_its_members(a: Capabilities, b: Capabilities, flag: u32)
    requires
        flag < 32,
    ensures
        Capabilities(a.0 | b.0).has(a),
        Capabilities(a.0 | b.0).has(b),
        Capabilities(a.0 | b.0).has(Capabilities(1u32 << flag)) <==> (a.has(
            Capabilities(1u32 << flag),
        ) || b.has(Capabilities(1u32 << flag))),
{
    let x = a.0;
    let y = b.0;
    assert((x | y) & x == x) by (bit_vector);
    assert((x | y) & y == y) by (bit_vector);
    assert(flag < 32 ==> (((x | y) & (1u32 << flag) == (1u32 << flag)) <==> (x & (1u32 << flag) == (
    1u32 << flag) || y & (1u32 << flag) == (1u32 << flag)))) by (bit_vector);
}

/// Containment is a partial order with the empty set at the bottom, and the
/// empty set contains no flag.
pub proof fn law_containment_is_an_order(a: Capabilities, b: Capabilities, c: Capabilities)
    ensures
        a.has(a),
        a.has(Capabilities(0)),
        Capabilities(0).has(a) ==> a == Capabilities(0),
        a.has(b) && b.has(a) ==> a == b,
        a.has(b) && b.has(c) ==> a.has(c),
{
    let x = a.0;
    let y = b.0;
    let z = c.0;
    assert(x & x == x) by (bit_vector);
    assert(x & 0 == 0) by (bit_vector);
    assert(0 & x == x ==> x == 0) by (bit_vector);
    assert(x & y == y && y & x == x ==> x == y) by (bit_vector);
    assert(x & y == y && y & z == z ==> x & z == z) by (bit_vector);
}

/// A single flag is contained exactly when its bit is set, and a union of flags
/// is contained exactly when each part is.
pub proof fn law_containment_is_by_flag(
    a: Capabilities,
    b: Capabilities,
    c: Capabilities,
    flag: u32,
)
    requires
        flag < 32,
    ensures
        a.has(Capabilities(1u32 << flag)) <==> (a.0 >> flag) & 1 == 1,
        a.has(Capabilities(b.0 | c.0)) <==> a.has(b) && a.has(c),
{
    let x = a.0;
    let y = b.0;
    let z = c.0;
    assert(flag < 32 ==> (x & (1u32 << flag) == (1u32 << flag) <==> (x >> flag) & 1 == 1))
        by (bit_vector);
    assert(x & (y | z) == (y | z) <==> (x & y == y && x & z == z)) by (bit_vector);
}

}

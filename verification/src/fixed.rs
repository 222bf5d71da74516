//! Signed 24.8 fixed-point numbers, the protocol's fractional scalar type.

use vstd::prelude::*;

verus! {

/// A signed 24.8 fixed-point number: 24 integer bits, 8 fractional bits.
///
/// The represented value is `inner_value / 256`.
#[derive(Clone, Copy, Debug, Eq, PartialEq, Structural)]
pub struct Fixed {
    inner_value: i32,
}

impl Fixed {
    /// The raw representation, visible to specifications.
    pub closed spec fn spec_inner_i32(self) -> i32 {
        self.inner_value
    }

    /// The raw representation as a mathematical integer.
    pub open spec fn spec_inner(self) -> int {
        self.spec_inner_i32() as int
    }

    /// The raw 32-bit representation (value times 256).
    pub fn inner_value(&self) -> (r: i32)
        ensures
            r == self.spec_inner_i32(),
    {
        self.inner_value
    }

    /// Builds a fixed-point number directly from its raw representation.
    pub fn from_inner_value(inner_value: i32) -> (r: Self)
        ensures
            r.spec_inner_i32() == inner_value,
    {
        Self { inner_value }
    }

    /// Converts an integer to fixed point.
    ///
    /// Fails exactly when the value does not fit in the 24 integer bits;
    /// there is no silent truncation.
    pub fn from_i32(value: i32) -> (r: Option<Self>)
        ensures
            -0x800000 <= value < 0x800000 ==> (r matches Some(f) && f.spec_inner() == value * 256),
            !(-0x800000 <= value < 0x800000) ==> r is None,
    {
        if value >= -0x800000 && value < 0x800000 {
            Some(Self { inner_value: value * 256 })
        } else {
            None
        }
    }

    /// Converts to an integer.
    ///
    /// Fails exactly when there is a non-zero fractional residue; there is no
    /// silent truncation.
    pub fn try_to_i32(&self) -> (r: Option<i32>)
        ensures
            self.spec_inner() % 256 == 0 ==> (r matches Some(v) && v * 256 == self.spec_inner()),
            self.spec_inner() % 256 != 0 ==> r is None,
    {
        if self.inner_value % 256 == 0 {
            Some(self.inner_value / 256)
        } else {
            None
        }
    }
}

/// Converting an integer in range to fixed point and back recovers it.
pub proof fn lemma_fixed_integer_round_trip(f: Fixed, value: i32)
    requires
        -0x800000 <= value < 0x800000,
        f.spec_inner() == value * 256,
    ensures
        f.spec_inner() % 256 == 0,
        f.spec_inner() / 256 == value,
{
}

} // verus!

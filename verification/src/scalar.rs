//! Real-valued quantities, carried by the bits of their single-precision encoding.
use vstd::prelude::*;

verus! {

/// A single-precision number, by its IEEE 754 bit pattern.
#[derive(Clone, Copy, Debug, PartialEq, Eq, Structural, Hash)]
pub struct Scalar(pub u32);

/// A vector of three single-precision numbers.
#[derive(Clone, Copy, Debug, PartialEq, Eq, Structural, Hash)]
pub struct Vector {
    pub x: Scalar,
    pub y: Scalar,
    pub z: Scalar,
}

impl Scalar {
    /// The pattern without its sign bit.
    pub open spec fn magnitude(self) -> int {
        self.0 as int % 0x8000_0000
    }

    pub open spec fn is_nan_spec(self) -> bool {
        self.magnitude() > 0x7f80_0000
    }

    /// An integer that orders numbers as their values do; both zeros have rank zero.
    pub open spec fn rank(self) -> int {
        if self.0 < 0x8000_0000 {
            self.magnitude()
        } else {
            -self.magnitude()
        }
    }

    /// `self >= other`, which is false where either is not a number.
    pub open spec fn at_least_spec(self, other: Scalar) -> bool {
        !self.is_nan_spec() && !other.is_nan_spec() && self.rank() >= other.rank()
    }

    /// `self > other`, which is false where either is not a number.
    pub open spec fn exceeds_spec(self, other: Scalar) -> bool {
        !self.is_nan_spec() && !other.is_nan_spec() && self.rank() > other.rank()
    }

    fn rank_exec(self) -> (rank: i64)
        ensures
            rank == self.rank(),
    {
        if self.0 < 0x8000_0000 {
            self.0 as i64
        } else {
            0x8000_0000i64 - self.0 as i64
        }
    }

    /// Whether the rank is the smaller one.
    pub fn ranks_below(self, other: Scalar) -> (below: bool)
        ensures
            below == (self.rank() < other.rank()),
    {
        let a: i64 = self.rank_exec();
        let b: i64 = other.rank_exec();
        a < b
    }

    pub fn is_nan(self) -> (nan: bool)
        ensures
            nan == self.is_nan_spec(),
    {
        self.0 % 0x8000_0000 > 0x7f80_0000
    }

    pub fn at_least(self, other: Scalar) -> (holds: bool)
        ensures
            holds == self.at_least_spec(other),
    {
        let a: i64 = self.rank_exec();
        let b: i64 = other.rank_exec();
        !self.is_nan() && !other.is_nan() && a >= b
    }

    pub fn exceeds(self, other: Scalar) -> (holds: bool)
        ensures
            holds == self.exceeds_spec(other),
    {
        let a: i64 = self.rank_exec();
        let b: i64 = other.rank_exec();
        !self.is_nan() && !other.is_nan() && a > b
    }
}

/// Of two numbers at least one is at least the other, unless one is not a number.
pub proof fn law_scalar_order_total(a: Scalar, b: Scalar)
    requires
        !a.is_nan_spec(),
        !b.is_nan_spec(),
    ensures
        a.at_least_spec(b) || b.at_least_spec(a),
{
}

/// The order on numbers is transitive.
pub proof fn law_scalar_order_transitive(a: Scalar, b: Scalar, c: Scalar)
    requires
        a.at_least_spec(b),
        b.at_least_spec(c),
    ensures
        a.at_least_spec(c),
{
}

/// Numbers are ordered by sign and magnitude: what has the sign bit is below what has not, but for the
/// two zeros, which are equal, and magnitudes go by the rest of the pattern, up without the sign bit and
/// down with it. What lies beyond infinity is not a number, and not ordered.
pub proof fn law_patterns_are_ordered_by_sign_and_magnitude(a: Scalar, b: Scalar)
    ensures
        a.is_nan_spec() <==> 0x7f80_0000 < a.0 < 0x8000_0000 || 0xff80_0000 < a.0,
        a.is_nan_spec() || b.is_nan_spec() ==> !a.at_least_spec(b) && !a.exceeds_spec(b),
        !a.is_nan_spec() && !b.is_nan_spec() ==> {
            &&& a.at_least_spec(b) <==> !b.exceeds_spec(a)
            &&& a.0 < 0x8000_0000 && b.0 < 0x8000_0000 ==> (a.exceeds_spec(b) <==> a.0 > b.0)
            &&& a.0 >= 0x8000_0000 && b.0 >= 0x8000_0000 ==> (a.exceeds_spec(b) <==> a.0 < b.0)
            &&& a.0 < 0x8000_0000 && b.0 >= 0x8000_0000 ==> (a.exceeds_spec(b) <==> a.0 != 0 || b.0
                != 0x8000_0000)
            &&& a.0 >= 0x8000_0000 && b.0 < 0x8000_0000 ==> !a.exceeds_spec(b)
        },
        a.rank() < b.rank() <==> (if a.0 < 0x8000_0000 {
            b.0 < 0x8000_0000 && a.0 < b.0
        } else if b.0 < 0x8000_0000 {
            a.0 != 0x8000_0000 || b.0 != 0
        } else {
            a.0 > b.0
        }),
{
}

} // verus!

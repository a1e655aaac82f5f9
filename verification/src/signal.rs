use vstd::prelude::*;
use core::ops::{BitAnd, BitOr, BitXor, Not};
use vstd::std_specs::ops::{BitAndSpecImpl, BitOrSpecImpl, BitXorSpecImpl, NotSpecImpl};

verus! {

/// A four-valued logic level: driven low, driven high, unknown, high impedance.
#[derive(Debug, Clone, Copy, PartialEq, Eq, Hash, Structural)]
pub enum Signal {
    Zero,
    One,
    X,
    Z,
}

/// Logical negation: `Zero` and `One` swap, anything else is unknown.
pub open spec fn spec_not(a: Signal) -> Signal {
    match a {
        Signal::Zero => Signal::One,
        Signal::One => Signal::Zero,
        _ => Signal::X,
    }
}

/// Conjunction: a `Zero` on either side forces `Zero`.
pub open spec fn spec_and(a: Signal, b: Signal) -> Signal {
    if a == Signal::Zero || b == Signal::Zero {
        Signal::Zero
    } else if a == Signal::One && b == Signal::One {
        Signal::One
    } else {
        Signal::X
    }
}

/// Disjunction: a `One` on either side forces `One`.
pub open spec fn spec_or(a: Signal, b: Signal) -> Signal {
    if a == Signal::One || b == Signal::One {
        Signal::One
    } else if a == Signal::Zero && b == Signal::Zero {
        Signal::Zero
    } else {
        Signal::X
    }
}

/// Exclusive or: defined only when both sides are driven.
pub open spec fn spec_xor(a: Signal, b: Signal) -> Signal {
    if is_bool(a) && is_bool(b) {
        if a == b { Signal::Zero } else { Signal::One }
    } else {
        Signal::X
    }
}

/// The signal is a driven level (`Zero` or `One`).
pub open spec fn is_bool(a: Signal) -> bool {
    a == Signal::Zero || a == Signal::One
}

/// The driven level of a boolean.
pub open spec fn from_bool(b: bool) -> Signal {
    if b { Signal::One } else { Signal::Zero }
}

/// Negation is an involution on driven levels.
pub proof fn lemma_not_involutive(a: Signal)
    requires
        is_bool(a),
    ensures
        spec_not(spec_not(a)) == a,
{
}

/// AND, OR and XOR are commutative on all four values.
pub proof fn lemma_ops_commutative(a: Signal, b: Signal)
    ensures
        spec_and(a, b) == spec_and(b, a),
        spec_or(a, b) == spec_or(b, a),
        spec_xor(a, b) == spec_xor(b, a),
{
}

/// AND and OR are associative on all four values.
pub proof fn lemma_ops_associative(a: Signal, b: Signal, c: Signal)
    ensures
        spec_and(spec_and(a, b), c) == spec_and(a, spec_and(b, c)),
        spec_or(spec_or(a, b), c) == spec_or(a, spec_or(b, c)),
        spec_xor(spec_xor(a, b), c) == spec_xor(a, spec_xor(b, c)),
{
}

/// De Morgan's laws hold on all four values: NAND is OR of the negations and
/// NOR is AND of the negations.
pub proof fn lemma_de_morgan(a: Signal, b: Signal)
    ensures
        spec_not(spec_and(a, b)) == spec_or(spec_not(a), spec_not(b)),
        spec_not(spec_or(a, b)) == spec_and(spec_not(a), spec_not(b)),
{
}

/// NAND is universal: NOT, AND, OR and XOR built from NAND gates alone
/// (1, 2, 3 and 4 gates) compute the intended functions on every input.
pub proof fn lemma_nand_universal(a: Signal, b: Signal)
    ensures
        spec_not(spec_and(a, a)) == spec_not(a),
        ({
            let n = spec_not(spec_and(a, b));
            spec_not(spec_and(n, n)) == spec_and(a, b)
        }),
        spec_not(spec_and(spec_not(spec_and(a, a)), spec_not(spec_and(b, b)))) == spec_or(a, b),
        is_bool(a) && is_bool(b) ==> ({
            let m = spec_not(spec_and(a, b));
            spec_not(spec_and(spec_not(spec_and(a, m)), spec_not(spec_and(b, m)))) == spec_xor(a, b)
        }),
{
}

/// NOR is universal: NOT, OR, AND and XOR built from NOR gates alone
/// (1, 2, 3 and 5 gates) compute the intended functions on every input.
pub proof fn lemma_nor_universal(a: Signal, b: Signal)
    ensures
        spec_not(spec_or(a, a)) == spec_not(a),
        ({
            let n = spec_not(spec_or(a, b));
            spec_not(spec_or(n, n)) == spec_or(a, b)
        }),
        spec_not(spec_or(spec_not(spec_or(a, a)), spec_not(spec_or(b, b)))) == spec_and(a, b),
        is_bool(a) && is_bool(b) ==> ({
            let m = spec_not(spec_or(a, b));
            let xnor = spec_not(spec_or(spec_not(spec_or(a, m)), spec_not(spec_or(b, m))));
            spec_not(spec_or(xnor, xnor)) == spec_xor(a, b)
        }),
{
}

impl Default for Signal {
    fn default() -> (r: Signal)
        ensures
            r == Signal::Zero,
    {
        Signal::Zero
    }
}

impl Signal {
    /// True exactly for `One`.
    pub fn is_high(self) -> (r: bool)
        ensures
            r == (self == Signal::One),
    {
        matches!(self, Signal::One)
    }

    /// The driven level for a boolean.
    pub fn from_bool(b: bool) -> (r: Signal)
        ensures
            r == from_bool(b),
    {
        if b { Signal::One } else { Signal::Zero }
    }

    pub fn nand(self, other: Self) -> (r: Self)
        ensures
            r == spec_not(spec_and(self, other)),
    {
        Not::not(BitAnd::bitand(self, other))
    }

    pub fn nor(self, other: Self) -> (r: Self)
        ensures
            r == spec_not(spec_or(self, other)),
    {
        Not::not(BitOr::bitor(self, other))
    }

    pub fn xnor(self, other: Self) -> (r: Self)
        ensures
            r == spec_not(spec_xor(self, other)),
    {
        Not::not(BitXor::bitxor(self, other))
    }
}

impl Not for Signal {
    type Output = Self;

    fn not(self) -> (r: Self::Output)
        ensures
            r == spec_not(self),
    {
        match self {
            Signal::Zero => Signal::One,
            Signal::One => Signal::Zero,
            Signal::X | Signal::Z => Signal::X,
        }
    }
}

impl NotSpecImpl for Signal {
    open spec fn obeys_not_spec() -> bool {
        true
    }

    open spec fn not_req(self) -> bool {
        true
    }

    open spec fn not_spec(self) -> Signal {
        spec_not(self)
    }
}

impl BitAnd for Signal {
    type Output = Self;

    fn bitand(self, rhs: Self) -> (r: Self::Output)
        ensures
            r == spec_and(self, rhs),
    {
        if self == Signal::Zero || rhs == Signal::Zero {
            Signal::Zero
        } else if self == Signal::One && rhs == Signal::One {
            Signal::One
        } else {
            Signal::X
        }
    }
}

impl BitAndSpecImpl for Signal {
    open spec fn obeys_bitand_spec() -> bool {
        true
    }

    open spec fn bitand_req(self, rhs: Signal) -> bool {
        true
    }

    open spec fn bitand_spec(self, rhs: Signal) -> Signal {
        spec_and(self, rhs)
    }
}

impl BitOr for Signal {
    type Output = Self;

    fn bitor(self, rhs: Self) -> (r: Self::Output)
        ensures
            r == spec_or(self, rhs),
    {
        if self == Signal::One || rhs == Signal::One {
            Signal::One
        } else if self == Signal::Zero && rhs == Signal::Zero {
            Signal::Zero
        } else {
            Signal::X
        }
    }
}

impl BitOrSpecImpl for Signal {
    open spec fn obeys_bitor_spec() -> bool {
        true
    }

    open spec fn bitor_req(self, rhs: Signal) -> bool {
        true
    }

    open spec fn bitor_spec(self, rhs: Signal) -> Signal {
        spec_or(self, rhs)
    }
}

impl BitXor for Signal {
    type Output = Self;

    fn bitxor(self, rhs: Self) -> (r: Self::Output)
        ensures
            r == spec_xor(self, rhs),
    {
        let a_driven = self == Signal::Zero || self == Signal::One;
        let b_driven = rhs == Signal::Zero || rhs == Signal::One;
        if a_driven && b_driven {
            if self == rhs { Signal::Zero } else { Signal::One }
        } else {
            Signal::X
        }
    }
}

impl BitXorSpecImpl for Signal {
    open spec fn obeys_bitxor_spec() -> bool {
        true
    }

    open spec fn bitxor_req(self, rhs: Signal) -> bool {
        true
    }

    open spec fn bitxor_spec(self, rhs: Signal) -> Signal {
        spec_xor(self, rhs)
    }
}

} // verus!

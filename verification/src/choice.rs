//! Masks and selections that do not branch on their operands.

use subtle::ConditionallySelectable as SubtleSelect;
use subtle::ConstantTimeEq as SubtleEq;
use vstd::prelude::*;

verus! {

/// A truth value held as a byte that is `0` or `1`, for use where control
/// flow must not depend on it.
#[derive(Clone, Copy, Debug)]
pub struct Choice {
    bit: u8,
}

impl View for Choice {
    type V = bool;

    closed spec fn view(&self) -> bool {
        self.bit == 1
    }
}

impl Choice {
    #[verifier::type_invariant]
    spec fn is_bit(self) -> bool {
        self.bit <= 1
    }

    /// Wraps a byte that is `0` or `1`.
    pub fn from_u8(bit: u8) -> (r: Choice)
        requires
            bit <= 1,
        ensures
            r@ == (bit == 1),
    {
        Choice { bit }
    }

    /// The byte behind the choice: `1` when set, `0` otherwise.
    pub fn unwrap_u8(&self) -> (r: u8)
        ensures
            r == (if self@ { 1u8 } else { 0u8 }),
    {
        proof {
            use_type_invariant(self);
        }
        self.bit
    }

    /// Both choices are set.
    pub fn and(self, rhs: Choice) -> (r: Choice)
        ensures
            r@ == (self@ && rhs@),
    {
        proof {
            use_type_invariant(&self);
            use_type_invariant(&rhs);
        }
        Choice { bit: bit_and(self.bit, rhs.bit) }
    }

    /// At least one of the choices is set.
    pub fn or(self, rhs: Choice) -> (r: Choice)
        ensures
            r@ == (self@ || rhs@),
    {
        proof {
            use_type_invariant(&self);
            use_type_invariant(&rhs);
        }
        Choice { bit: bit_or(self.bit, rhs.bit) }
    }

    /// The choice is not set.
    pub fn not(self) -> (r: Choice)
        ensures
            r@ == !self@,
    {
        proof {
            use_type_invariant(&self);
        }
        Choice { bit: bit_not(self.bit) }
    }
}

/// `subtle`'s `&` on two `Choice`s made from the given bits: the bitwise and
/// of the two bytes, which for bits is their conjunction.
#[verifier::external_body]
fn bit_and(a: u8, b: u8) -> (r: u8)
    requires
        a <= 1,
        b <= 1,
    ensures
        r == (if a == 1 && b == 1 { 1u8 } else { 0u8 }),
{
    (subtle::Choice::from(a) & subtle::Choice::from(b)).unwrap_u8()
}

/// `subtle`'s `|` on two `Choice`s made from the given bits: the bitwise or
/// of the two bytes, which for bits is their disjunction.
#[verifier::external_body]
fn bit_or(a: u8, b: u8) -> (r: u8)
    requires
        a <= 1,
        b <= 1,
    ensures
        r == (if a == 1 || b == 1 { 1u8 } else { 0u8 }),
{
    (subtle::Choice::from(a) | subtle::Choice::from(b)).unwrap_u8()
}

/// `subtle`'s `!` on a `Choice` made from the given bit: the low bit of the
/// byte's complement.
#[verifier::external_body]
fn bit_not(a: u8) -> (r: u8)
    requires
        a <= 1,
    ensures
        r == 1 - a,
{
    (!subtle::Choice::from(a)).unwrap_u8()
}

/// `subtle`'s `ct_eq` on two `u64`, unwrapped: `1` when the words are equal,
/// `0` otherwise.
#[verifier::external_body]
fn eq_bit(a: u64, b: u64) -> (r: u8)
    ensures
        r == (if a == b { 1u8 } else { 0u8 }),
{
    a.ct_eq(&b).unwrap_u8()
}

/// `subtle`'s `conditional_select` on two `u64`, with a `Choice` made from
/// the given bit: the second word when the bit is `1`, the first when it is
/// `0`.
#[verifier::external_body]
fn select_word(a: u64, b: u64, bit: u8) -> (r: u64)
    requires
        bit <= 1,
    ensures
        r == (if bit == 1 { b } else { a }),
{
    u64::conditional_select(&a, &b, subtle::Choice::from(bit))
}

/// Whether two words are equal, without branching on them.
pub fn ct_eq_u64(a: u64, b: u64) -> (r: Choice)
    ensures
        r@ == (a == b),
{
    Choice { bit: eq_bit(a, b) }
}

/// The second word when the choice is set, the first otherwise, without
/// branching on the choice.
pub fn select_u64(a: u64, b: u64, choice: Choice) -> (r: u64)
    ensures
        r == (if choice@ { b } else { a }),
{
    proof {
        use_type_invariant(&choice);
    }
    select_word(a, b, choice.bit)
}

/// A value of which one of two can be picked without branching on the choice.
pub trait ConditionallySelectable: Sized {
    /// `b` when the choice is set, `a` otherwise.
    fn conditional_select(a: &Self, b: &Self, choice: Choice) -> (r: Self)
        ensures
            r == (if choice@ { *b } else { *a }),
    ;
}

} // verus!

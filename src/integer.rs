//! Arbitrary-precision signed integers, held as a sign and decimal digits.

use crate::digits::{canonical, digits_of, lemma_canonical_is_digits_of, value_le};
use num_bigint::{BigInt, Sign};
use vstd::prelude::*;

verus! {

/// An integer of any size.
///
/// The magnitude's digits are decimal, least significant first, in canonical
/// form; zero is never negative.
#[derive(Debug)]
pub struct Integer {
    negative: bool,
    magnitude: Vec<u8>,
}

impl View for Integer {
    type V = int;

    closed spec fn view(&self) -> int {
        if self.negative {
            -value_le(self.magnitude@, 10)
        } else {
            value_le(self.magnitude@, 10) as int
        }
    }
}

impl Integer {
    #[verifier::type_invariant]
    spec fn inv(&self) -> bool {
        &&& canonical(self.magnitude@, 10)
        &&& (self.negative ==> value_le(self.magnitude@, 10) > 0)
    }

    /// The integer `n`.
    pub fn from_i64(n: i64) -> (r: Integer)
        ensures
            r@ == n as int,
    {
        bigint_from_i64(n)
    }

    /// Whether the integer is below zero.
    pub fn is_negative(&self) -> (r: bool)
        ensures
            r == (self@ < 0),
    {
        proof {
            use_type_invariant(self);
        }
        self.negative
    }

    /// The decimal digits of the absolute value, least significant first.
    pub fn magnitude_digits_le(&self) -> (r: &Vec<u8>)
        ensures
            r@ == digits_of(if self@ < 0 { -self@ } else { self@ } as nat, 10),
    {
        proof {
            use_type_invariant(self);
            lemma_canonical_is_digits_of(self.magnitude@, 10);
        }
        &self.magnitude
    }
}

impl Clone for Integer {
    fn clone(&self) -> (r: Integer)
        ensures
            r@ == self@,
    {
        proof {
            use_type_invariant(self);
        }
        Integer { negative: self.negative, magnitude: self.magnitude.clone() }
    }
}

/// Equality of values.
impl PartialEq for Integer {
    fn eq(&self, o: &Integer) -> (r: bool) {
        proof {
            use_type_invariant(self);
            use_type_invariant(o);
            lemma_canonical_is_digits_of(self.magnitude@, 10);
            lemma_canonical_is_digits_of(o.magnitude@, 10);
        }
        if self.negative != o.negative || self.magnitude.len() != o.magnitude.len() {
            return false;
        }
        let mut i: usize = 0;
        while i < self.magnitude.len()
            invariant
                self.negative == o.negative,
                self.magnitude@.len() == o.magnitude@.len(),
                i <= self.magnitude@.len(),
                forall|j: int| 0 <= j < i ==> self.magnitude@[j] == o.magnitude@[j],
                self.magnitude@ == digits_of(value_le(self.magnitude@, 10), 10),
                o.magnitude@ == digits_of(value_le(o.magnitude@, 10), 10),
            decreases self.magnitude@.len() - i,
        {
            if self.magnitude[i] != o.magnitude[i] {
                return false;
            }
            i = i + 1;
        }
        assert(self.magnitude@ =~= o.magnitude@);
        true
    }
}

impl vstd::std_specs::cmp::PartialEqSpecImpl for Integer {
    open spec fn obeys_eq_spec() -> bool {
        true
    }

    open spec fn eq_spec(&self, o: &Integer) -> bool {
        self@ == o@
    }
}

/// Relies on `BigInt::from(i64)` and `BigInt::to_radix_le`: the sign and
/// decimal digits of `n`.
#[verifier::external_body]
fn bigint_from_i64(n: i64) -> (r: Integer)
    ensures
        r@ == n as int,
{
    let (sign, magnitude) = BigInt::from(n).to_radix_le(10);
    Integer { negative: sign == Sign::Minus, magnitude }
}

/// Relies on `BigInt * isize`: the product.
#[verifier::external_body]
pub(crate) fn times(a: &Integer, k: isize) -> (r: Integer)
    ensures
        r@ == a@ * k,
{
    let sign = if a.negative { Sign::Minus } else { Sign::Plus };
    let x = BigInt::from_radix_le(sign, &a.magnitude, 10).unwrap();
    let (sign, magnitude) = (x * k).to_radix_le(10);
    Integer { negative: sign == Sign::Minus, magnitude }
}

/// Relies on `BigInt - BigInt`: the difference.
#[verifier::external_body]
pub(crate) fn minus(a: &Integer, b: &Integer) -> (r: Integer)
    ensures
        r@ == a@ - b@,
{
    let sa = if a.negative { Sign::Minus } else { Sign::Plus };
    let sb = if b.negative { Sign::Minus } else { Sign::Plus };
    let x = BigInt::from_radix_le(sa, &a.magnitude, 10).unwrap();
    let y = BigInt::from_radix_le(sb, &b.magnitude, 10).unwrap();
    let (sign, magnitude) = (x - y).to_radix_le(10);
    Integer { negative: sign == Sign::Minus, magnitude }
}

} // verus!

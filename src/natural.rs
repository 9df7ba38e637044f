//! Arbitrary-precision natural numbers, held as their decimal digits.

use crate::digits::{canonical, digits_below, digits_of, value_be, value_le};
use crate::digits::{lemma_canonical_is_digits_of, lemma_value_positive};
use num_bigint::BigUint;
use vstd::prelude::*;

verus! {

/// A natural number of any size.
///
/// The digits are decimal, least significant first, in canonical form: zero
/// is a single `0` and no other number has a zero in its top place.
#[derive(Debug)]
pub struct Natural {
    digits: Vec<u8>,
}

impl View for Natural {
    type V = nat;

    closed spec fn view(&self) -> nat {
        value_le(self.digits@, 10)
    }
}

impl Natural {
    #[verifier::type_invariant]
    spec fn inv(&self) -> bool {
        canonical(self.digits@, 10)
    }

    /// The number `n`.
    pub fn from_u64(n: u64) -> (r: Natural)
        ensures
            r@ == n as nat,
    {
        biguint_from_u64(n)
    }

    /// The number whose digits in `base` are `digits`, most significant first
    /// (leading zeros allowed); `None` when a digit is not below `base`.
    pub fn from_digits_be(digits: &Vec<u8>, base: u32) -> (r: Option<Natural>)
        requires
            2 <= base <= 256,
        ensures
            r.is_some() == digits_below(digits@, base as nat),
            r.is_some() ==> r.unwrap()@ == value_be(digits@, base as nat),
    {
        from_radix_be(digits, base)
    }

    /// Whether the number is zero.
    pub fn is_zero(&self) -> (r: bool)
        ensures
            r == (self@ == 0),
    {
        proof {
            use_type_invariant(self);
            let d = self.digits@;
            if d.len() > 1 {
                lemma_value_positive(d, 10);
            } else {
                assert(d.drop_first() =~= Seq::<u8>::empty());
                assert(value_le(d.drop_first(), 10) == 0);
            }
        }
        self.digits.len() == 1 && self.digits[0] == 0
    }

    /// Whether the number is even.
    pub fn is_even(&self) -> (r: bool)
        ensures
            r == (self@ % 2 == 0),
    {
        proof {
            use_type_invariant(self);
            let d = self.digits@;
            let v = value_le(d.drop_first(), 10);
            assert(self@ == d[0] as nat + 10 * v);
            assert((d[0] as nat + 10 * v) % 2 == (d[0] as nat) % 2) by (nonlinear_arith);
        }
        self.digits[0] % 2 == 0
    }

    /// The decimal digits, least significant first.
    pub fn digits_le(&self) -> (r: &Vec<u8>)
        ensures
            r@ == digits_of(self@, 10),
    {
        proof {
            use_type_invariant(self);
            lemma_canonical_is_digits_of(self.digits@, 10);
        }
        &self.digits
    }
}

impl Clone for Natural {
    fn clone(&self) -> (r: Natural)
        ensures
            r@ == self@,
    {
        proof {
            use_type_invariant(self);
        }
        Natural { digits: self.digits.clone() }
    }
}

/// Equality of values.
impl PartialEq for Natural {
    fn eq(&self, o: &Natural) -> (r: bool) {
        proof {
            use_type_invariant(self);
            use_type_invariant(o);
            lemma_canonical_is_digits_of(self.digits@, 10);
            lemma_canonical_is_digits_of(o.digits@, 10);
        }
        if self.digits.len() != o.digits.len() {
            return false;
        }
        let mut i: usize = 0;
        while i < self.digits.len()
            invariant
                self.digits@.len() == o.digits@.len(),
                i <= self.digits@.len(),
                forall|j: int| 0 <= j < i ==> self.digits@[j] == o.digits@[j],
                self.digits@ == digits_of(self@, 10),
                o.digits@ == digits_of(o@, 10),
            decreases self.digits@.len() - i,
        {
            if self.digits[i] != o.digits[i] {
                return false;
            }
            i = i + 1;
        }
        assert(self.digits@ =~= o.digits@);
        true
    }
}

impl vstd::std_specs::cmp::PartialEqSpecImpl for Natural {
    open spec fn obeys_eq_spec() -> bool {
        true
    }

    open spec fn eq_spec(&self, o: &Natural) -> bool {
        self@ == o@
    }
}

/// Relies on `BigUint::from(u64)` and `BigUint::to_radix_le`: the decimal
/// digits of `n`.
#[verifier::external_body]
fn biguint_from_u64(n: u64) -> (r: Natural)
    ensures
        r@ == n as nat,
{
    Natural { digits: BigUint::from(n).to_radix_le(10) }
}

/// Relies on `BigUint::to_radix_be`: the canonical digits of the number in
/// `base`, most significant first.
#[verifier::external_body]
pub(crate) fn to_radix_be(n: &Natural, base: u32) -> (r: Vec<u8>)
    requires
        2 <= base <= 256,
    ensures
        r@ == digits_of(n@, base as nat).reverse(),
{
    BigUint::from_radix_le(&n.digits, 10).unwrap().to_radix_be(base)
}

/// Relies on `BigUint::from_radix_le`: a number from its digits, least
/// significant first, or `None` when a digit is not below `base`.
#[verifier::external_body]
pub(crate) fn from_radix_le(d: &Vec<u8>, base: u32) -> (r: Option<Natural>)
    requires
        2 <= base <= 256,
    ensures
        r.is_some() == digits_below(d@, base as nat),
        r.is_some() ==> r.unwrap()@ == value_le(d@, base as nat),
{
    match BigUint::from_radix_le(d, base) {
        Some(v) => Some(Natural { digits: v.to_radix_le(10) }),
        None => None,
    }
}

/// Relies on `BigUint::from_radix_be`: a number from its digits, most
/// significant first, or `None` when a digit is not below `base`.
#[verifier::external_body]
pub(crate) fn from_radix_be(d: &Vec<u8>, base: u32) -> (r: Option<Natural>)
    requires
        2 <= base <= 256,
    ensures
        r.is_some() == digits_below(d@, base as nat),
        r.is_some() ==> r.unwrap()@ == value_be(d@, base as nat),
{
    match BigUint::from_radix_be(d, base) {
        Some(v) => Some(Natural { digits: v.to_radix_le(10) }),
        None => None,
    }
}

/// Relies on `BigUint + BigUint`: the sum.
#[verifier::external_body]
pub(crate) fn sum(a: &Natural, b: &Natural) -> (r: Natural)
    ensures
        r@ == a@ + b@,
{
    let x = BigUint::from_radix_le(&a.digits, 10).unwrap();
    let y = BigUint::from_radix_le(&b.digits, 10).unwrap();
    Natural { digits: (x + y).to_radix_le(10) }
}

/// Relies on `BigUint * u32`: the product.
#[verifier::external_body]
pub(crate) fn product(a: &Natural, k: u32) -> (r: Natural)
    ensures
        r@ == a@ * k,
{
    let x = BigUint::from_radix_le(&a.digits, 10).unwrap();
    Natural { digits: (x * k).to_radix_le(10) }
}

/// Relies on `BigUint / u32`, which panics on a zero divisor: the quotient,
/// rounded down.
#[verifier::external_body]
pub(crate) fn quotient(a: &Natural, k: u32) -> (r: Natural)
    requires
        k > 0,
    ensures
        r@ == a@ / (k as nat),
{
    let x = BigUint::from_radix_le(&a.digits, 10).unwrap();
    Natural { digits: (x / k).to_radix_le(10) }
}

/// Relies on `BigUint - BigUint`, which panics below zero: the difference.
#[verifier::external_body]
pub(crate) fn difference(a: &Natural, b: &Natural) -> (r: Natural)
    requires
        a@ >= b@,
    ensures
        r@ == a@ - b@,
{
    let x = BigUint::from_radix_le(&a.digits, 10).unwrap();
    let y = BigUint::from_radix_le(&b.digits, 10).unwrap();
    Natural { digits: (x - y).to_radix_le(10) }
}

} // verus!

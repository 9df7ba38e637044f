//! Kaprekar's routine: the digits sorted high-to-low minus the digits sorted
//! low-to-high, repeated until the value no longer changes.

use crate::digits::{digits_below, digits_of, lemma_digits_of, value_be, value_le};
use crate::error::Error;
use crate::lychrel::{budget, MAX_ITERATIONS};
use crate::natural::{difference, from_radix_be, from_radix_le, to_radix_be, Natural};
use vstd::arithmetic::power::pow;
use vstd::prelude::*;
use vstd::relations::{sorted_by, total_ordering};

verus! {

/// The order in which digits are sorted: ascending.
pub open spec fn digit_order() -> spec_fn(u8, u8) -> bool {
    |a: u8, b: u8| a <= b
}

/// The digits of `n` in `base`, in ascending order.
pub open spec fn ascending_digits(n: nat, base: nat) -> Seq<u8> {
    digits_of(n, base).sort_by(digit_order())
}

/// The largest number that `n`'s digits in `base` can be arranged into,
/// minus the smallest.
pub open spec fn extremes_difference(n: nat, base: nat) -> nat {
    let s = ascending_digits(n, base);
    (value_le(s, base) - value_be(s, base)) as nat
}

/// The value after `k` steps of Kaprekar's routine from `n`.
pub open spec fn kaprekar_iter(n: nat, base: nat, k: nat) -> nat
    decreases k,
{
    if k == 0 {
        n
    } else {
        extremes_difference(kaprekar_iter(n, base, (k - 1) as nat), base)
    }
}

/// A step of the routine leaves `n` as it is.
pub open spec fn is_fixed_point(n: nat, base: nat) -> bool {
    extremes_difference(n, base) == n
}

/// No value among the first `k` of the routine from `n` is a fixed point.
pub open spec fn no_fixed_point_before(n: nat, base: nat, k: nat) -> bool {
    forall|j: nat| j < k ==> !is_fixed_point(#[trigger] kaprekar_iter(n, base, j), base)
}

/// The base in force: the one given, or ten.
pub open spec fn radix(base: Option<u32>) -> nat {
    match base {
        Some(b) => b as nat,
        None => 10,
    }
}

pub(crate) proof fn lemma_digit_order()
    ensures
        total_ordering(digit_order()),
{
}

proof fn lemma_value_push(t: Seq<u8>, a: u8, base: nat)
    ensures
        value_le(t.push(a), base) == value_le(t, base) + pow(base as int, t.len()) * a,
    decreases t.len(),
{
    let s = t.push(a);
    if t.len() == 0 {
        assert(s.drop_first() =~= Seq::<u8>::empty());
        assert(value_le(s.drop_first(), base) == 0);
        reveal(pow);
        assert(pow(base as int, 0) == 1);
        assert(base * 0 == 0) by (nonlinear_arith);
    } else {
        let u = t.drop_first();
        assert(s.drop_first() =~= u.push(a));
        lemma_value_push(u, a, base);
        let p = pow(base as int, u.len());
        reveal(pow);
        assert(pow(base as int, t.len()) == base * p);
        let vu = value_le(u, base);
        assert(base * (vu + p * a) == base * vu + (base * p) * a) by (nonlinear_arith);
    }
}

/// Digits that are all at least `a` are worth at least `a` in every place.
proof fn lemma_value_lower(t: Seq<u8>, a: u8, base: nat)
    requires
        base >= 1,
        forall|i: int| 0 <= i < t.len() ==> a <= #[trigger] t[i],
    ensures
        (base - 1) * value_le(t, base) >= a * (pow(base as int, t.len()) - 1),
    decreases t.len(),
{
    if t.len() == 0 {
        reveal(pow);
        assert(pow(base as int, 0) == 1);
    } else {
        let u = t.drop_first();
        assert forall|i: int| 0 <= i < u.len() implies a <= #[trigger] u[i] by {
            assert(u[i] == t[i + 1]);
        }
        lemma_value_lower(u, a, base);
        let p = pow(base as int, u.len());
        reveal(pow);
        assert(pow(base as int, t.len()) == base * p);
        let vu = value_le(u, base);
        let x = t[0];
        assert((base - 1) * (x + base * vu) >= a * (base * p - 1)) by (nonlinear_arith)
            requires
                (base - 1) * vu >= a * (p - 1),
                x >= a,
                base >= 1,
        ;
    }
}

/// Digits in ascending order are worth at least as much read least
/// significant first as read most significant first.
proof fn lemma_ascending_extremes(s: Seq<u8>, base: nat)
    requires
        base >= 1,
        sorted_by(s, digit_order()),
    ensures
        value_le(s, base) >= value_be(s, base),
    decreases s.len(),
{
    if s.len() > 0 {
        let t = s.drop_first();
        let a = s[0];
        assert(sorted_by(t, digit_order())) by {
            assert forall|i: int, j: int| 0 <= i < j < t.len() implies #[trigger] (digit_order())(
                t[i],
                t[j],
            ) by {
                assert((digit_order())(s[i + 1], s[j + 1]));
            }
        }
        lemma_ascending_extremes(t, base);
        assert forall|i: int| 0 <= i < t.len() implies a <= #[trigger] t[i] by {
            assert((digit_order())(s[0], s[i + 1]));
        }
        lemma_value_lower(t, a, base);
        assert(s.reverse() =~= t.reverse().push(a));
        lemma_value_push(t.reverse(), a, base);
        let vt = value_le(t, base);
        let rt = value_le(t.reverse(), base);
        let p = pow(base as int, t.len());
        assert(a + base * vt >= rt + p * a) by (nonlinear_arith)
            requires
                vt >= rt,
                (base - 1) * vt >= a * (p - 1),
        ;
    }
}

/// Relies on `slice::sort_unstable`: the same digits, in ascending order.
#[verifier::external_body]
fn sort_ascending(v: &mut Vec<u8>)
    ensures
        sorted_by(final(v)@, digit_order()),
        final(v)@.to_multiset() == old(v)@.to_multiset(),
{
    v.sort_unstable()
}

/// The digits of `n` in `base`, in ascending order.
pub fn sorted_digits(n: &Natural, base: u32) -> (r: Vec<u8>)
    requires
        2 <= base <= 256,
    ensures
        r@ == ascending_digits(n@, base as nat),
{
    let mut sorted = to_radix_be(n, base);
    sort_ascending(&mut sorted);
    proof {
        let d = digits_of(n@, base as nat);
        d.lemma_reverse_to_multiset();
        lemma_digit_order();
        d.lemma_sort_by_ensures(digit_order());
        vstd::seq_lib::lemma_sorted_unique(sorted@, ascending_digits(n@, base as nat), digit_order());
    }
    sorted
}

/// One step of Kaprekar's routine: the largest number that `n`'s digits in
/// `base` can be arranged into, minus the smallest.
pub fn sorted_digit_extremes(n: &Natural, base: u32) -> (r: Natural)
    requires
        2 <= base <= 256,
    ensures
        r@ == extremes_difference(n@, base as nat),
{
    let sorted = sorted_digits(n, base);
    proof {
        let d = digits_of(n@, base as nat);
        lemma_digits_of(n@, base as nat);
        lemma_digit_order();
        d.lemma_sort_by_ensures(digit_order());
        assert forall|i: int| 0 <= i < sorted@.len() implies (#[trigger] sorted@[i] as nat)
            < base by {
            assert(sorted@.contains(sorted@[i]));
            assert(d.contains(sorted@[i]));
        }
        assert(digits_below(sorted@, base as nat));
        lemma_ascending_extremes(sorted@, base as nat);
    }
    let high = from_radix_le(&sorted, base).unwrap();
    let low = from_radix_be(&sorted, base).unwrap();
    difference(&high, &low)
}

/// Applies Kaprekar's routine from `number` in `base` (by default ten) until
/// a step leaves the value unchanged, and gives that value; fails with
/// `IterationLimitExceeded` when no such value comes within the budget (by
/// default `MAX_ITERATIONS` steps).
pub fn kaprekar(number: Natural, base: Option<u32>, max_iterations: Option<usize>) -> (r: Result<
    Natural,
    Error,
>)
    requires
        2 <= radix(base) <= 256,
    ensures
        match r {
            Ok(v) => exists|k: nat|
                {
                    &&& k < budget(max_iterations)
                    &&& #[trigger] kaprekar_iter(number@, radix(base), k) == v@
                    &&& is_fixed_point(v@, radix(base))
                    &&& no_fixed_point_before(number@, radix(base), k)
                },
            Err(e) => {
                &&& e == Error::IterationLimitExceeded
                &&& no_fixed_point_before(number@, radix(base), budget(max_iterations))
            },
        },
{
    let b = match base {
        Some(b) => b,
        None => 10,
    };
    let max = match max_iterations {
        Some(m) => m,
        None => MAX_ITERATIONS,
    };
    let ghost start = number@;
    let mut previous = number;
    let mut i: usize = 0;
    while i < max
        invariant
            b as nat == radix(base),
            2 <= b <= 256,
            max as nat == budget(max_iterations),
            start == number@,
            i <= max,
            previous@ == kaprekar_iter(start, b as nat, i as nat),
            no_fixed_point_before(start, b as nat, i as nat),
        decreases max - i,
    {
        let result = sorted_digit_extremes(&previous, b);
        if result == previous {
            return Ok(result);
        }
        proof {
            assert forall|j: nat| j < i + 1 implies !is_fixed_point(
                #[trigger] kaprekar_iter(start, b as nat, j),
                b as nat,
            ) by {
                if j < i {
                    assert(!is_fixed_point(kaprekar_iter(start, b as nat, j), b as nat));
                }
            }
        }
        previous = result;
        i = i + 1;
    }
    Err(Error::IterationLimitExceeded)
}

} // verus!

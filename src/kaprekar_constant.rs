//! Kaprekar's constant: four-digit numbers reach 6174.

use crate::digits::{canonical, digits_of, lemma_canonical_is_digits_of, value_be, value_le};
use crate::kaprekar::{
    ascending_digits, digit_order, extremes_difference, is_fixed_point, kaprekar_iter,
    lemma_digit_order,
};
use vstd::multiset::Multiset;
use vstd::prelude::*;
use vstd::relations::sorted_by;

verus! {

/// The decimal digits of a four-digit number, least significant first.
spec fn digits_four(m: nat) -> Seq<u8> {
    seq![(m % 10) as u8, (m / 10 % 10) as u8, (m / 10 / 10 % 10) as u8, (m / 10 / 10 / 10) as u8]
}

/// Four digits sorted by a network of five compare-and-swap steps.
spec fn sort_four(s: Seq<u8>) -> Seq<u8> {
    let (a1, b1) = if s[0] <= s[1] { (s[0], s[1]) } else { (s[1], s[0]) };
    let (c1, d1) = if s[2] <= s[3] { (s[2], s[3]) } else { (s[3], s[2]) };
    let (a2, c2) = if a1 <= c1 { (a1, c1) } else { (c1, a1) };
    let (b2, d2) = if b1 <= d1 { (b1, d1) } else { (d1, b1) };
    let (b3, c3) = if b2 <= c2 { (b2, c2) } else { (c2, b2) };
    seq![a2, b3, c3, d2]
}

/// The multiset of four entries.
spec fn multiset_four(s: Seq<u8>) -> Multiset<u8> {
    Seq::<u8>::empty().to_multiset().insert(s[0]).insert(s[1]).insert(s[2]).insert(s[3])
}

/// One step of the routine on a four-digit number, by its sorted digits.
spec fn step_four(m: nat) -> nat {
    let w = sort_four(digits_four(m));
    (999 * (w[3] - w[0]) + 90 * (w[2] - w[1])) as nat
}

/// How many steps of the routine take `v` to 6174, for the numbers that one
/// step from a four-digit number can give; 7 for any other number.
spec fn depth(v: nat) -> nat {
    if v == 6174 {
        0
    } else if v == 4176 || v == 8352 || v == 8532 {
        1
    } else if v == 2088 || v == 3087 || v == 4266 || v == 6264 || v == 7083 || v == 7353
        || v == 7533 || v == 8082 || v == 9171 || v == 9261 || v == 9621 || v == 9711 {
        2
    } else if v == 1089 || v == 1998 || v == 3996 || v == 4356 || v == 6354 || v == 6534
        || v == 6993 || v == 8991 || v == 9081 || v == 9801 {
        3
    } else if v == 3177 || v == 5265 || v == 5355 || v == 5445 || v == 6444 || v == 7173
        || v == 7443 || v == 8262 || v == 8622 {
        4
    } else if v == 2178 || v == 2997 || v == 3267 || v == 4995 || v == 5994 || v == 7263
        || v == 7623 || v == 7992 || v == 8172 || v == 8712 {
        5
    } else if v == 4086 || v == 5085 || v == 5175 || v == 6084 || v == 8442 || v == 9351
        || v == 9441 || v == 9531 {
        6
    } else {
        7
    }
}

proof fn lemma_multiset_of_four(s: Seq<u8>)
    requires
        s.len() == 4,
    ensures
        s.to_multiset() == multiset_four(s),
{
    broadcast use vstd::seq_lib::group_to_multiset_ensures;

    let e = Seq::<u8>::empty();
    assert(s =~= e.push(s[0]).push(s[1]).push(s[2]).push(s[3]));
}

proof fn lemma_value_four(s: Seq<u8>)
    requires
        s.len() == 4,
    ensures
        value_le(s, 10) == s[0] + 10 * s[1] + 100 * s[2] + 1000 * s[3],
{
    let s1 = s.drop_first();
    let s2 = s1.drop_first();
    let s3 = s2.drop_first();
    let s4 = s3.drop_first();
    assert(s4 =~= Seq::<u8>::empty());
    assert(value_le(s4, 10) == 0);
    assert(value_le(s3, 10) == s[3]);
    assert(value_le(s2, 10) == s[2] + 10 * s[3]);
    assert(value_le(s1, 10) == s[1] + 10 * s[2] + 100 * s[3]);
}

proof fn lemma_digits_four(m: nat)
    requires
        1000 <= m <= 9999,
    ensures
        digits_of(m, 10) == digits_four(m),
{
    let d = digits_four(m);
    let q1 = m / 10;
    let q2 = q1 / 10;
    let q3 = q2 / 10;
    assert(m == 10 * q1 + m % 10);
    assert(q1 == 10 * q2 + q1 % 10);
    assert(q2 == 10 * q3 + q2 % 10);
    assert(1 <= q3 < 10);
    lemma_value_four(d);
    assert(value_le(d, 10) == m);
    assert(canonical(d, 10));
    lemma_canonical_is_digits_of(d, 10);
}

/// On a four-digit number the routine sorts its digits as the network does,
/// and a step gives `999·(largest − smallest) + 90·(second largest − second
/// smallest)`.
proof fn lemma_step_four(m: nat)
    requires
        1000 <= m <= 9999,
    ensures
        ascending_digits(m, 10) == sort_four(digits_four(m)),
        extremes_difference(m, 10) == step_four(m),
{
    lemma_digits_four(m);
    let d = digits_four(m);
    let w = sort_four(d);
    lemma_digit_order();
    d.lemma_sort_by_ensures(digit_order());
    assert(sorted_by(w, digit_order()));
    lemma_multiset_of_four(d);
    lemma_multiset_of_four(w);
    assert(multiset_four(w) =~= multiset_four(d));
    vstd::seq_lib::lemma_sorted_unique(ascending_digits(m, 10), w, digit_order());
    lemma_value_four(w);
    assert(w.reverse() =~= seq![w[3], w[2], w[1], w[0]]);
    lemma_value_four(w.reverse());
}

proof fn lemma_iter_shift(n: nat, base: nat, k: nat)
    ensures
        kaprekar_iter(n, base, k + 1) == kaprekar_iter(extremes_difference(n, base), base, k),
    decreases k,
{
    if k > 0 {
        lemma_iter_shift(n, base, (k - 1) as nat);
        assert(kaprekar_iter(n, base, k + 1) == extremes_difference(kaprekar_iter(n, base, k), base));
    } else {
        assert(kaprekar_iter(n, base, 1) == extremes_difference(kaprekar_iter(n, base, 0), base));
    }
}

proof fn lemma_fixed_iter(k: nat)
    ensures
        kaprekar_iter(6174, 10, k) == 6174,
    decreases k,
{
    if k > 0 {
        lemma_fixed_iter((k - 1) as nat);
        lemma_step_four(6174);
    }
}

proof fn lemma_depth_1(v: nat)
    requires
        depth(v) == 1,
    ensures
        1000 <= v <= 9999,
        depth(step_four(v)) == 0,
{
    assert(step_four(4176) == 6174);
    assert(step_four(8352) == 6174);
    assert(step_four(8532) == 6174);
}

proof fn lemma_depth_2(v: nat)
    requires
        depth(v) == 2,
    ensures
        1000 <= v <= 9999,
        depth(step_four(v)) == 1,
{
    assert(step_four(2088) == 8532);
    assert(step_four(3087) == 8352);
    assert(step_four(4266) == 4176);
    assert(step_four(6264) == 4176);
    assert(step_four(7083) == 8352);
    assert(step_four(7353) == 4176);
    assert(step_four(7533) == 4176);
    assert(step_four(8082) == 8532);
    assert(step_four(9171) == 8532);
    assert(step_four(9261) == 8352);
    assert(step_four(9621) == 8352);
    assert(step_four(9711) == 8532);
}

proof fn lemma_depth_3(v: nat)
    requires
        depth(v) == 3,
    ensures
        1000 <= v <= 9999,
        depth(step_four(v)) == 2,
{
    assert(step_four(1089) == 9621);
    assert(step_four(1998) == 8082);
    assert(step_four(3996) == 6264);
    assert(step_four(4356) == 3087);
    assert(step_four(6354) == 3087);
    assert(step_four(6534) == 3087);
    assert(step_four(6993) == 6264);
    assert(step_four(8991) == 8082);
    assert(step_four(9081) == 9621);
    assert(step_four(9801) == 9621);
}

proof fn lemma_depth_4(v: nat)
    requires
        depth(v) == 4,
    ensures
        1000 <= v <= 9999,
        depth(step_four(v)) == 3,
{
    assert(step_four(3177) == 6354);
    assert(step_four(5265) == 3996);
    assert(step_four(5355) == 1998);
    assert(step_four(5445) == 1089);
    assert(step_four(6444) == 1998);
    assert(step_four(7173) == 6354);
    assert(step_four(7443) == 3996);
    assert(step_four(8262) == 6354);
    assert(step_four(8622) == 6354);
}

proof fn lemma_depth_5(v: nat)
    requires
        depth(v) == 5,
    ensures
        1000 <= v <= 9999,
        depth(step_four(v)) == 4,
{
    assert(step_four(2178) == 7443);
    assert(step_four(2997) == 7173);
    assert(step_four(3267) == 5265);
    assert(step_four(4995) == 5355);
    assert(step_four(5994) == 5355);
    assert(step_four(7263) == 5265);
    assert(step_four(7623) == 5265);
    assert(step_four(7992) == 7173);
    assert(step_four(8172) == 7443);
    assert(step_four(8712) == 7443);
}

proof fn lemma_depth_6(v: nat)
    requires
        depth(v) == 6,
    ensures
        1000 <= v <= 9999,
        depth(step_four(v)) == 5,
{
    assert(step_four(4086) == 8172);
    assert(step_four(5085) == 7992);
    assert(step_four(5175) == 5994);
    assert(step_four(6084) == 8172);
    assert(step_four(8442) == 5994);
    assert(step_four(9351) == 8172);
    assert(step_four(9441) == 7992);
    assert(step_four(9531) == 8172);
}

proof fn lemma_table(v: nat)
    requires
        depth(v) <= 6,
    ensures
        1000 <= v <= 9999,
        depth(v) == 0 ==> v == 6174,
        depth(v) > 0 ==> depth(step_four(v)) + 1 == depth(v),
{
    if depth(v) == 1 {
        lemma_depth_1(v);
    } else if depth(v) == 2 {
        lemma_depth_2(v);
    } else if depth(v) == 3 {
        lemma_depth_3(v);
    } else if depth(v) == 4 {
        lemma_depth_4(v);
    } else if depth(v) == 5 {
        lemma_depth_5(v);
    } else if depth(v) == 6 {
        lemma_depth_6(v);
    }
}

proof fn lemma_reach(v: nat, k: nat)
    requires
        depth(v) <= k,
        k <= 6,
    ensures
        kaprekar_iter(v, 10, k) == 6174,
    decreases k,
{
    lemma_table(v);
    if depth(v) == 0 {
        lemma_fixed_iter(k);
    } else {
        lemma_step_four(v);
        lemma_iter_shift(v, 10, (k - 1) as nat);
        lemma_reach(step_four(v), (k - 1) as nat);
    }
}

proof fn lemma_first_step(x: int, y: int)
    requires
        1 <= x <= 9,
        0 <= y <= x,
        !(x == 1 && y == 0),
    ensures
        depth((999 * x + 90 * y) as nat) <= 6,
{
}

/// Kaprekar's routine in base ten takes every four-digit number to 6174
/// within seven steps, and 6174 is a fixed point. The numbers left out are
/// those whose digits are all equal, and those whose largest digit exceeds
/// the smallest by one with the two middle digits equal (such as 2111): their
/// first step gives 999, and the routine, which drops leading zeros, then
/// reaches 0.
pub proof fn lemma_kaprekar_constant(n: nat)
    requires
        1000 <= n <= 9999,
        ascending_digits(n, 10)[0] != ascending_digits(n, 10)[3],
        !(ascending_digits(n, 10)[3] == ascending_digits(n, 10)[0] + 1 && ascending_digits(n, 10)[1]
            == ascending_digits(n, 10)[2]),
    ensures
        kaprekar_iter(n, 10, 7) == 6174,
        is_fixed_point(6174, 10),
{
    lemma_step_four(n);
    let w = sort_four(digits_four(n));
    assert(w[0] <= w[1] <= w[2] <= w[3]);
    lemma_first_step(w[3] - w[0], w[2] - w[1]);
    lemma_iter_shift(n, 10, 6);
    lemma_reach(step_four(n), 6);
    lemma_step_four(6174);
}

} // verus!

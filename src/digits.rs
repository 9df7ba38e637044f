//! Positional digit sequences and the integers they denote.

use vstd::arithmetic::div_mod::lemma_fundamental_div_mod_converse;
use vstd::prelude::*;

verus! {

/// The value of a digit sequence whose least significant digit comes first.
pub open spec fn value_le(s: Seq<u8>, base: nat) -> nat
    decreases s.len(),
{
    if s.len() == 0 {
        0
    } else {
        s[0] as nat + base * value_le(s.drop_first(), base)
    }
}

/// The value of a digit sequence whose most significant digit comes first.
pub open spec fn value_be(s: Seq<u8>, base: nat) -> nat {
    value_le(s.reverse(), base)
}

/// Every digit is below the base.
pub open spec fn digits_below(s: Seq<u8>, base: nat) -> bool {
    forall|i: int| 0 <= i < s.len() ==> (#[trigger] s[i] as nat) < base
}

/// The form in which a number's digits are written: at least one digit, every
/// digit below the base, and no zero in the most significant place unless the
/// number is zero itself.
pub open spec fn canonical(s: Seq<u8>, base: nat) -> bool {
    &&& s.len() >= 1
    &&& digits_below(s, base)
    &&& (s.len() == 1 || s.last() != 0)
}

/// The canonical digits of `n` in `base`, least significant first.
pub open spec fn digits_of(n: nat, base: nat) -> Seq<u8> {
    choose|s: Seq<u8>| canonical(s, base) && value_le(s, base) == n
}

proof fn lemma_split(n: nat, base: nat, s0: nat, v: nat)
    requires
        base >= 2,
        s0 < base,
        n == s0 + base * v,
    ensures
        s0 == n % base,
        v == n / base,
        v >= 1 ==> n >= base,
{
    assert(n == v * base + s0) by (nonlinear_arith)
        requires
            n == s0 + base * v,
    ;
    lemma_fundamental_div_mod_converse(n as int, base as int, v as int, s0 as int);
    assert(v >= 1 ==> n >= base) by (nonlinear_arith)
        requires
            n == s0 + base * v,
    ;
}

/// A sequence of digits whose last digit is nonzero denotes a positive number.
pub proof fn lemma_value_positive(s: Seq<u8>, base: nat)
    requires
        s.len() >= 1,
        s.last() != 0,
        base >= 1,
    ensures
        value_le(s, base) > 0,
    decreases s.len(),
{
    if s.len() > 1 {
        let rest = s.drop_first();
        assert(rest.last() == s.last());
        lemma_value_positive(rest, base);
        let v = value_le(rest, base);
        assert(base * v > 0) by (nonlinear_arith)
            requires
                base >= 1,
                v > 0,
        ;
    }
}

proof fn lemma_rest_canonical(s: Seq<u8>, base: nat)
    requires
        canonical(s, base),
        s.len() > 1,
    ensures
        canonical(s.drop_first(), base),
        s.drop_first().last() == s.last(),
{
    let rest = s.drop_first();
    assert forall|i: int| 0 <= i < rest.len() implies (#[trigger] rest[i] as nat) < base by {
        assert(rest[i] == s[i + 1]);
    }
}

proof fn lemma_digits_exist(n: nat, base: nat) -> (s: Seq<u8>)
    requires
        2 <= base <= 256,
    ensures
        canonical(s, base),
        value_le(s, base) == n,
    decreases n,
{
    if n < base {
        let s = seq![n as u8];
        assert(s.drop_first() =~= Seq::<u8>::empty());
        assert(value_le(s.drop_first(), base) == 0);
        assert(value_le(s, base) == s[0] as nat + base * value_le(s.drop_first(), base));
        assert(s[0] as nat == n);
        s
    } else {
        vstd::arithmetic::div_mod::lemma_fundamental_div_mod(n as int, base as int);
        assert(0 < n / base < n) by (nonlinear_arith)
            requires
                base >= 2,
                n >= base,
        ;
        let rest = lemma_digits_exist(n / base, base);
        let s = seq![(n % base) as u8] + rest;
        assert(s.drop_first() =~= rest);
        assert forall|i: int| 0 <= i < s.len() implies (#[trigger] s[i] as nat) < base by {
            if i > 0 {
                assert(s[i] == rest[i - 1]);
            }
        }
        assert(s.last() == rest.last());
        if rest.len() == 1 {
            assert(rest.drop_first() =~= Seq::<u8>::empty());
            assert(value_le(rest.drop_first(), base) == 0);
            assert(value_le(rest, base) == rest[0] as nat + base * value_le(rest.drop_first(), base));
            let z = value_le(rest.drop_first(), base);
            assert(base * z == 0) by (nonlinear_arith)
                requires
                    z == 0,
            ;
            assert(rest[0] as nat == n / base);
        }
        assert(n == n % base + base * (n / base)) by (nonlinear_arith)
            requires
                n == base * (n / base) + n % base,
        ;
        assert(value_le(s, base) == s[0] as nat + base * value_le(rest, base));
        s
    }
}

/// The digits that `digits_of` gives are canonical and denote the number.
pub proof fn lemma_digits_of(n: nat, base: nat)
    requires
        2 <= base <= 256,
    ensures
        canonical(digits_of(n, base), base),
        value_le(digits_of(n, base), base) == n,
{
    let _ = lemma_digits_exist(n, base);
}

/// Two canonical sequences with one value are the same sequence.
pub proof fn lemma_canonical_unique(s: Seq<u8>, t: Seq<u8>, base: nat)
    requires
        2 <= base <= 256,
        canonical(s, base),
        canonical(t, base),
        value_le(s, base) == value_le(t, base),
    ensures
        s == t,
    decreases s.len(),
{
    let n = value_le(s, base);
    let vs = value_le(s.drop_first(), base);
    let vt = value_le(t.drop_first(), base);
    lemma_split(n, base, s[0] as nat, vs);
    lemma_split(n, base, t[0] as nat, vt);
    if s.len() > 1 {
        lemma_rest_canonical(s, base);
        lemma_value_positive(s.drop_first(), base);
    }
    if t.len() > 1 {
        lemma_rest_canonical(t, base);
        lemma_value_positive(t.drop_first(), base);
    }
    if s.len() == 1 || t.len() == 1 {
        assert(s.drop_first() =~= Seq::<u8>::empty());
        assert(t.drop_first() =~= Seq::<u8>::empty());
        assert(s =~= t);
    } else {
        lemma_canonical_unique(s.drop_first(), t.drop_first(), base);
        assert(s =~= seq![s[0]] + s.drop_first());
        assert(t =~= seq![t[0]] + t.drop_first());
    }
}

/// A canonical sequence is the one that `digits_of` gives for its value.
pub proof fn lemma_canonical_is_digits_of(s: Seq<u8>, base: nat)
    requires
        2 <= base <= 256,
        canonical(s, base),
    ensures
        s == digits_of(value_le(s, base), base),
{
    lemma_digits_of(value_le(s, base), base);
    lemma_canonical_unique(s, digits_of(value_le(s, base), base), base);
}

} // verus!

//! The look-and-say reading of a number's digits.

use crate::digits::{digits_below, digits_of, lemma_digits_of, value_be};
use crate::error::Error;
use crate::lychrel::BASE;
use crate::natural::{from_radix_be, to_radix_be, Natural};
use vstd::prelude::*;

verus! {

/// The look-and-say reading of a digit sequence: for each run of equal
/// digits, from the front, the run's length followed by its digit.
pub open spec fn say(s: Seq<u8>) -> Seq<nat>
    decreases s.len(),
{
    if s.len() == 0 {
        seq![]
    } else {
        let p = say(s.drop_last());
        if s.len() >= 2 && s[s.len() - 2] == s.last() {
            p.update(p.len() - 2, p[p.len() - 2] + 1)
        } else {
            p + seq![1nat, s.last() as nat]
        }
    }
}

/// The reading of `n`'s decimal digits, most significant first.
pub open spec fn said(n: nat) -> Seq<nat> {
    say(digits_of(n, 10).reverse())
}

/// Every entry is a decimal digit.
pub open spec fn all_decimal(s: Seq<nat>) -> bool {
    forall|i: int| 0 <= i < s.len() ==> #[trigger] s[i] < 10
}

/// The entries as bytes.
pub open spec fn as_bytes(s: Seq<nat>) -> Seq<u8> {
    s.map_values(|x: nat| x as u8)
}

/// The bytes as entries.
pub open spec fn as_nats(s: Seq<u8>) -> Seq<nat> {
    s.map_values(|x: u8| x as nat)
}

/// Reading one digit more: the last run grows, or a new run starts.
proof fn lemma_say_step(s: Seq<u8>, i: int)
    requires
        1 <= i < s.len(),
    ensures
        ({
            let p = say(s.subrange(0, i));
            let q = say(s.subrange(0, i + 1));
            if s[i] == s[i - 1] {
                q == p.update(p.len() - 2, p[p.len() - 2] + 1)
            } else {
                q == p + seq![1nat, s[i] as nat]
            }
        }),
{
    let t = s.subrange(0, i + 1);
    assert(t.drop_last() =~= s.subrange(0, i));
    assert(t[t.len() - 2] == s[i - 1]);
    assert(t.last() == s[i]);
}

/// The reading of a single digit.
proof fn lemma_say_one(s: Seq<u8>)
    requires
        s.len() >= 1,
    ensures
        say(s.subrange(0, 1)) == seq![1nat, s[0] as nat],
{
    let t = s.subrange(0, 1);
    assert(t.drop_last() =~= Seq::<u8>::empty());
    assert(say(t.drop_last()) == Seq::<nat>::empty());
    assert(say(t) =~= seq![1nat, s[0] as nat]);
}

/// Entries of a completed run stay as they are when digits are added behind.
proof fn lemma_say_keeps(s: Seq<u8>, i: nat, k: int)
    requires
        i <= s.len(),
        0 <= k,
        k + 2 < say(s.subrange(0, i as int)).len(),
    ensures
        say(s).len() >= say(s.subrange(0, i as int)).len(),
        say(s)[k] == say(s.subrange(0, i as int))[k],
    decreases s.len(),
{
    if i == s.len() {
        assert(s.subrange(0, i as int) =~= s);
    } else {
        let t = s.drop_last();
        assert(t.subrange(0, i as int) =~= s.subrange(0, i as int));
        lemma_say_keeps(t, i, k);
    }
}

/// Reads `number`'s decimal digits out loud: `3211` is one 3, one 2, two 1s,
/// so `131221`. Fails with `ReconstructionError` when a run is longer than
/// nine digits, since its length is then no single decimal digit.
pub fn look_and_say(number: &Natural) -> (r: Result<Natural, Error>)
    ensures
        match r {
            Ok(v) => all_decimal(said(number@)) && v@ == value_be(as_bytes(said(number@)), 10),
            Err(e) => e == Error::ReconstructionError && !all_decimal(said(number@)),
        },
{
    let d = to_radix_be(number, BASE);
    proof {
        lemma_digits_of(number@, 10);
    }
    let ghost s = d@;
    assert(digits_below(s, 10)) by {
        assert forall|j: int| 0 <= j < s.len() implies (#[trigger] s[j] as nat) < 10 by {
            assert(s[j] == digits_of(number@, 10)[s.len() - 1 - j]);
        }
    }
    let mut result: Vec<u8> = Vec::new();
    let mut current: u8 = d[0];
    let mut count: usize = 1;
    let mut i: usize = 1;
    proof {
        lemma_say_one(s);
        assert(as_nats(result@) =~= Seq::<nat>::empty());
        assert(say(s.subrange(0, 1)) =~= as_nats(result@) + seq![count as nat, current as nat]);
    }
    while i < d.len()
        invariant
            s == d@,
            s == digits_of(number@, 10).reverse(),
            digits_below(s, 10),
            1 <= i <= s.len(),
            1 <= count <= i,
            current == s[i - 1],
            all_decimal(as_nats(result@)),
            say(s.subrange(0, i as int)) == as_nats(result@) + seq![count as nat, current as nat],
        decreases s.len() - i,
    {
        proof {
            lemma_say_step(s, i as int);
        }
        if d[i] == current {
            count = count + 1;
            assert(say(s.subrange(0, i + 1)) =~= as_nats(result@) + seq![
                count as nat,
                current as nat,
            ]);
        } else {
            if count > 9 {
                proof {
                    let k = result@.len() as int;
                    assert(say(s.subrange(0, i + 1))[k] == count as nat);
                    lemma_say_keeps(s, (i + 1) as nat, k);
                    assert(s.subrange(0, s.len() as int) =~= s);
                    assert(said(number@) == say(s));
                    assert(said(number@)[k] >= 10);
                }
                return Err(Error::ReconstructionError);
            }
            let ghost old_result = result@;
            result.push(count as u8);
            result.push(current);
            current = d[i];
            count = 1;
            assert(as_nats(result@) =~= as_nats(old_result) + seq![
                result@[result@.len() - 2] as nat,
                result@[result@.len() - 1] as nat,
            ]);
            assert(say(s.subrange(0, i + 1)) =~= as_nats(result@) + seq![
                count as nat,
                current as nat,
            ]);
        }
        i = i + 1;
    }
    assert(s.subrange(0, s.len() as int) =~= s);
    assert(said(number@) == say(s));
    if count > 9 {
        assert(said(number@)[result@.len() as int] >= 10);
        return Err(Error::ReconstructionError);
    }
    result.push(count as u8);
    result.push(current);
    assert(result@ =~= as_bytes(said(number@)));
    assert(all_decimal(said(number@)));
    let v = from_radix_be(&result, BASE);
    v.ok_or(Error::ReconstructionError)
}

} // verus!

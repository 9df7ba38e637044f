//! Collatz (hailstone) trajectories: halve an even number, map an odd one to
//! three times it plus one, until the value is 1.

use crate::error::Error;
use crate::natural::{product, quotient, sum, Natural};
use vstd::prelude::*;

verus! {

/// The value after `x` in a trajectory.
pub open spec fn collatz_next(x: nat) -> nat {
    if x % 2 == 1 {
        3 * x + 1
    } else {
        x / 2
    }
}

/// The value after `k` steps from `x`.
pub open spec fn collatz_iter(x: nat, k: nat) -> nat
    decreases k,
{
    if k == 0 {
        x
    } else {
        collatz_next(collatz_iter(x, (k - 1) as nat))
    }
}

/// The trajectory from `x` does not reach 1 within its first `k` values.
pub open spec fn no_one_before(x: nat, k: nat) -> bool {
    forall|j: nat| j < k ==> #[trigger] collatz_iter(x, j) != 1
}

/// The value after `x`, computed.
fn step(x: &Natural) -> (r: Natural)
    ensures
        r@ == collatz_next(x@),
{
    if x.is_even() {
        quotient(x, 2)
    } else {
        sum(&product(x, 3), &Natural::from_u64(1))
    }
}

/// The trajectory from `x` reaches 1.
pub open spec fn reaches_one(x: nat) -> bool {
    exists|k: nat| #[trigger] collatz_iter(x, k) == 1
}

/// The trajectory from `start`, from `start` itself down to the first 1.
///
/// A positive `start` must be one whose trajectory reaches 1; fails with
/// `InvalidInput` when `start` is 0.
pub fn collatz(start: &Natural) -> (r: Result<Vec<Natural>, Error>)
    requires
        start@ > 0 ==> reaches_one(start@),
    ensures
        r.is_err() <==> start@ == 0,
        match r {
            Ok(v) => {
                &&& v@.len() >= 1
                &&& forall|i: int| 0 <= i < v@.len() ==> #[trigger] v@[i]@ == collatz_iter(start@, i as nat)
                &&& v@.last()@ == 1
                &&& no_one_before(start@, (v@.len() - 1) as nat)
            },
            Err(e) => e == Error::InvalidInput,
        },
{
    if start.is_zero() {
        return Err(Error::InvalidInput);
    }
    let ghost bound = choose|k: nat| #[trigger] collatz_iter(start@, k) == 1;
    let one = Natural::from_u64(1);
    let mut current = start.clone();
    let mut result: Vec<Natural> = Vec::new();
    result.push(start.clone());
    while !(current == one)
        invariant
            one@ == 1,
            collatz_iter(start@, bound) == 1,
            1 <= result@.len() <= bound + 1,
            forall|i: int| 0 <= i < result@.len() ==> #[trigger] result@[i]@ == collatz_iter(start@, i as nat),
            current@ == collatz_iter(start@, (result@.len() - 1) as nat),
            no_one_before(start@, (result@.len() - 1) as nat),
        decreases bound + 1 - result@.len(),
    {
        let ghost steps = (result@.len() - 1) as nat;
        assert(steps != bound);
        proof {
            assert forall|j: nat| j < steps + 1 implies #[trigger] collatz_iter(start@, j) != 1 by {
                if j < steps {
                    assert(collatz_iter(start@, j) != 1);
                }
            }
        }
        current = step(&current);
        result.push(current.clone());
    }
    Ok(result)
}

/// A trajectory handed out one value at a time.
pub struct CollatzIterator {
    next: Natural,
    stop: bool,
}

impl CollatzIterator {
    /// The value that the next call hands out, or `None` once the trajectory
    /// is over.
    pub closed spec fn pending(&self) -> Option<nat> {
        if self.stop {
            None
        } else {
            Some(self.next@)
        }
    }

    /// The trajectory from `start`; fails with `InvalidInput` when `start`
    /// is 0.
    pub fn new(start: Natural) -> (r: Result<Self, Error>)
        ensures
            r.is_err() <==> start@ == 0,
            match r {
                Ok(it) => it.pending() == Some(start@),
                Err(e) => e == Error::InvalidInput,
            },
    {
        if start.is_zero() {
            return Err(Error::InvalidInput);
        }
        Ok(Self { next: start, stop: false })
    }

    /// Hands out the pending value; the trajectory ends after a 1, and every
    /// call after that gives `None`.
    pub fn next(&mut self) -> (r: Option<Natural>)
        ensures
            match old(self).pending() {
                None => r.is_none() && final(self).pending().is_none(),
                Some(x) => {
                    &&& r.is_some()
                    &&& r.unwrap()@ == x
                    &&& final(self).pending() == if x == 1 {
                        None::<nat>
                    } else {
                        Some(collatz_next(x))
                    }
                },
            },
    {
        if self.stop {
            return None;
        }
        let current = self.next.clone();
        if current == Natural::from_u64(1) {
            self.stop = true;
        } else {
            self.next = step(&current);
        }
        Some(current)
    }
}

} // verus!

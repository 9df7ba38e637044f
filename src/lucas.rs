//! Lucas sequences: `F(k) = p·F(k-1) − q·F(k-2)` from `F(0) = 0`, `F(1) = 1`.

use crate::integer::{minus, times, Integer};
use vstd::prelude::*;

verus! {

/// The term at position `n` of the Lucas sequence with coefficients `p`, `q`.
pub open spec fn lucas(n: nat, p: int, q: int) -> int
    decreases n,
{
    if n == 0 {
        0
    } else if n == 1 {
        1
    } else {
        p * lucas((n - 1) as nat, p, q) - q * lucas((n - 2) as nat, p, q)
    }
}

/// The coefficient in force: the one given, or the default.
pub open spec fn coefficient(c: Option<isize>, default: int) -> int {
    match c {
        Some(v) => v as int,
        None => default,
    }
}

/// The term at position `number` of the Lucas sequence with coefficients `p`
/// (by default 1) and `q` (by default -1); the defaults give the Fibonacci
/// numbers. Takes `number` steps of constant state.
pub fn fibonacci(number: usize, p: Option<isize>, q: Option<isize>) -> (r: Integer)
    ensures
        r@ == lucas(number as nat, coefficient(p, 1), coefficient(q, -1)),
{
    if number <= 1 {
        Integer::from_i64(number as i64)
    } else {
        let lucas_p: isize = match p {
            Some(v) => v,
            None => 1,
        };
        let lucas_q: isize = match q {
            Some(v) => v,
            None => -1,
        };
        let ghost pp = lucas_p as int;
        let ghost qq = lucas_q as int;
        let mut previous = Integer::from_i64(0);
        let mut current = Integer::from_i64(1);
        let mut k: usize = 1;
        while k < number
            invariant
                1 <= k <= number,
                pp == coefficient(p, 1),
                qq == coefficient(q, -1),
                pp == lucas_p as int,
                qq == lucas_q as int,
                previous@ == lucas((k - 1) as nat, pp, qq),
                current@ == lucas(k as nat, pp, qq),
            decreases number - k,
        {
            let next = minus(&times(&current, lucas_p), &times(&previous, lucas_q));
            proof {
                let a = lucas(k as nat, pp, qq);
                let b = lucas((k - 1) as nat, pp, qq);
                assert(lucas((k + 1) as nat, pp, qq) == pp * a - qq * b);
                assert(a * pp - b * qq == pp * a - qq * b) by (nonlinear_arith);
            }
            previous = current;
            current = next;
            k = k + 1;
        }
        current
    }
}

} // verus!

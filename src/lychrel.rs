//! Reverse-and-add: digit reversal, the palindrome test and the search for
//! the first palindrome that the routine reaches.

use crate::digits::{canonical, digits_of, lemma_canonical_is_digits_of, lemma_digits_of, value_be, value_le};
use crate::error::Error;
use crate::natural::{from_radix_be, sum, Natural};
use vstd::prelude::*;

verus! {

/// The base in which numbers are reversed and read.
pub const BASE: u32 = 10;

/// The iteration budget of a search when the caller names none.
pub const MAX_ITERATIONS: usize = 10000;

/// The number whose decimal digits are those of `n` in reverse order.
pub open spec fn reversed(n: nat) -> nat {
    value_be(digits_of(n, 10), 10)
}

/// The decimal digits of `n` read the same forwards and backwards.
pub open spec fn is_palindromic(n: nat) -> bool {
    digits_of(n, 10) == digits_of(n, 10).reverse()
}

/// One step of the routine: `n` plus its reversal.
pub open spec fn reverse_add(n: nat) -> nat {
    n + reversed(n)
}

/// The value after `k` steps of reverse-and-add from `n`.
pub open spec fn reverse_add_iter(n: nat, k: nat) -> nat
    decreases k,
{
    if k == 0 {
        n
    } else {
        reverse_add(reverse_add_iter(n, (k - 1) as nat))
    }
}

/// The iteration budget in force: the one given, or the default.
pub open spec fn budget(max_iterations: Option<usize>) -> nat {
    match max_iterations {
        Some(m) => m as nat,
        None => MAX_ITERATIONS as nat,
    }
}

/// No value among the first `k` of the routine from `n` is a palindrome.
pub open spec fn no_palindrome_before(n: nat, k: nat) -> bool {
    forall|j: nat| j < k ==> !is_palindromic(#[trigger] reverse_add_iter(n, j))
}

/// Reversing twice gives the number back when its last decimal digit is not
/// zero.
pub proof fn lemma_reverse_involutive(n: nat)
    requires
        n % 10 != 0,
    ensures
        reversed(reversed(n)) == n,
{
    let d = digits_of(n, 10);
    lemma_digits_of(n, 10);
    assert(n == d[0] as nat + 10 * value_le(d.drop_first(), 10));
    assert(d[0] as nat == n % 10);
    let e = d.reverse();
    assert(e.last() == d[0]);
    assert(canonical(e, 10)) by {
        assert forall|i: int| 0 <= i < e.len() implies (#[trigger] e[i] as nat) < 10 by {
            assert(e[i] == d[d.len() - 1 - i]);
        }
    }
    lemma_canonical_is_digits_of(e, 10);
    assert(e.reverse() =~= d);
}

/// Whether a digit sequence equals its own reverse.
pub fn is_palindrome(digits: &Vec<u8>) -> (r: bool)
    ensures
        r == (digits@ == digits@.reverse()),
{
    let n = digits.len();
    let mut i: usize = 0;
    while i < n / 2
        invariant
            n == digits@.len(),
            i <= n / 2,
            forall|j: int| 0 <= j < i ==> #[trigger] digits@[j] == digits@[n - 1 - j],
        decreases n / 2 - i,
    {
        if digits[i] != digits[n - 1 - i] {
            assert(digits@.reverse()[n - 1 - i] == digits@[i as int]);
            return false;
        }
        i = i + 1;
    }
    assert(digits@ =~= digits@.reverse()) by {
        assert forall|j: int| 0 <= j < n implies digits@[j] == digits@.reverse()[j] by {
            if j >= n / 2 {
                let k = n - 1 - j;
                if k < n / 2 {
                    assert(digits@[k] == digits@[n - 1 - k]);
                }
            }
        }
    }
    true
}

/// The number whose decimal digits are those of `n` reversed; zeros that
/// come to the front vanish (`120` gives `21`).
pub fn reverse(n: &Natural) -> (r: Natural)
    ensures
        r@ == reversed(n@),
{
    let d = n.digits_le();
    proof {
        lemma_digits_of(n@, 10);
    }
    from_radix_be(d, BASE).unwrap()
}

/// `n` plus its reversal.
pub fn reverse_and_add(n: &Natural) -> (r: Natural)
    ensures
        r@ == reverse_add(n@),
{
    let rev = reverse(n);
    sum(n, &rev)
}

/// Applies reverse-and-add from `number` until a palindrome appears, checking
/// each value before the step. Gives the palindrome and the number of steps
/// taken (`0` when `number` is one), or `IterationLimitExceeded` when none
/// appears within the budget (by default `MAX_ITERATIONS`).
pub fn find_lychrel_palindrome(number: Natural, max_iterations: Option<usize>) -> (r: Result<
    (Natural, usize),
    Error,
>)
    ensures
        match r {
            Ok((v, k)) => {
                &&& (k as nat) < budget(max_iterations)
                &&& v@ == reverse_add_iter(number@, k as nat)
                &&& is_palindromic(v@)
                &&& no_palindrome_before(number@, k as nat)
            },
            Err(e) => {
                &&& e == Error::IterationLimitExceeded
                &&& no_palindrome_before(number@, budget(max_iterations))
            },
        },
{
    let max = match max_iterations {
        Some(m) => m,
        None => MAX_ITERATIONS,
    };
    let ghost start = number@;
    let mut next = number;
    let mut iterations: usize = 0;
    while iterations < max
        invariant
            max as nat == budget(max_iterations),
            start == number@,
            iterations <= max,
            next@ == reverse_add_iter(start, iterations as nat),
            no_palindrome_before(start, iterations as nat),
        decreases max - iterations,
    {
        let d = next.digits_le();
        if is_palindrome(d) {
            return Ok((next, iterations));
        }
        proof {
            lemma_digits_of(next@, 10);
        }
        let rev = from_radix_be(d, BASE).unwrap();
        next = sum(&next, &rev);
        proof {
            assert forall|j: nat| j < iterations + 1 implies !is_palindromic(
                #[trigger] reverse_add_iter(start, j),
            ) by {
                if j < iterations {
                    assert(!is_palindromic(reverse_add_iter(start, j)));
                }
            }
        }
        iterations = iterations + 1;
    }
    Err(Error::IterationLimitExceeded)
}

/// Whether reverse-and-add from `number` reaches no palindrome within the
/// budget (by default `MAX_ITERATIONS`).
pub fn is_lychrel_candidate(number: Natural, max_iterations: Option<usize>) -> (r: bool)
    ensures
        r == no_palindrome_before(number@, budget(max_iterations)),
{
    match find_lychrel_palindrome(number, max_iterations) {
        Ok(_) => false,
        Err(_) => true,
    }
}

} // verus!

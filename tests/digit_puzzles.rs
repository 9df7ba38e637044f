use lychrel::collatz::{collatz, CollatzIterator};
use lychrel::error::Error;
use lychrel::integer::Integer;
use lychrel::kaprekar::{kaprekar, sorted_digit_extremes, sorted_digits};
use lychrel::look_and_say::look_and_say;
use lychrel::lucas::fibonacci;
use lychrel::lychrel::{
    find_lychrel_palindrome, is_lychrel_candidate, is_palindrome, reverse, reverse_and_add,
};
use lychrel::natural::Natural;

fn number(n: u64) -> Natural {
    Natural::from_u64(n)
}

#[test]
fn natural_digits_are_little_endian() {
    assert_eq!(number(1203).digits_le(), &vec![3, 0, 2, 1]);
    assert_eq!(number(0).digits_le(), &vec![0]);
    assert_eq!(number(u64::MAX), number(18446744073709551615));
    assert_ne!(number(12), number(21));
}

#[test]
fn reverse_and_add_of_23() {
    assert_eq!(reverse_and_add(&number(23)), number(55));
}

#[test]
fn reverse_drops_leading_zeros() {
    assert_eq!(reverse(&number(120)), number(21));
    assert_eq!(reverse(&number(0)), number(0));
    assert_eq!(reverse(&number(7)), number(7));
}

#[test]
fn reverse_twice_gives_back_a_number_without_trailing_zero() {
    for n in [1u64, 12, 123, 4501, 9876543211, 1000000000000000001] {
        assert_eq!(reverse(&reverse(&number(n))), number(n));
    }
}

#[test]
fn palindrome_test_on_digits() {
    assert!(is_palindrome(&vec![1, 2, 1]));
    assert!(is_palindrome(&vec![4, 4]));
    assert!(is_palindrome(&vec![]));
    assert!(!is_palindrome(&vec![1, 2]));
    assert!(!is_palindrome(&vec![1, 2, 3, 1]));
}

#[test]
fn find_palindrome_of_89() {
    let (v, k) = find_lychrel_palindrome(number(89), None).unwrap();
    assert_eq!(v, number(8813200023188));
    assert_eq!(k, 24);
}

#[test]
fn find_palindrome_of_10_takes_one_step() {
    assert_eq!(find_lychrel_palindrome(number(10), None).unwrap(), (number(11), 1));
}

#[test]
fn find_palindrome_of_a_palindrome_takes_no_step() {
    assert_eq!(find_lychrel_palindrome(number(0), None).unwrap(), (number(0), 0));
    assert_eq!(find_lychrel_palindrome(number(12321), Some(1)).unwrap(), (number(12321), 0));
}

#[test]
fn find_palindrome_of_196_exceeds_limit() {
    assert_eq!(
        find_lychrel_palindrome(number(196), Some(100)).unwrap_err(),
        Error::IterationLimitExceeded
    );
}

#[test]
fn find_palindrome_with_zero_budget_fails() {
    assert_eq!(
        find_lychrel_palindrome(number(11), Some(0)).unwrap_err(),
        Error::IterationLimitExceeded
    );
}

#[test]
fn found_palindrome_reads_the_same_both_ways() {
    for n in [19u64, 59, 89, 167, 10911] {
        let (v, _) = find_lychrel_palindrome(number(n), None).unwrap();
        assert!(is_palindrome(v.digits_le()));
    }
}

#[test]
fn lychrel_candidates() {
    assert!(is_lychrel_candidate(number(196), None));
    assert!(!is_lychrel_candidate(number(197), None));
    assert!(!is_lychrel_candidate(number(89), None));
    assert!(is_lychrel_candidate(number(89), Some(24)));
    assert!(!is_lychrel_candidate(number(89), Some(25)));
}

#[test]
fn kaprekar_reaches_6174() {
    for n in [1234u64, 9876, 4680, 3524, 6174, 1000 + 234] {
        assert_eq!(kaprekar(number(n), None, None).unwrap(), number(6174));
    }
}

#[test]
fn kaprekar_converges_for_every_four_digit_input_outside_the_short_ones() {
    for n in 1000u64..10000 {
        let d = sorted_digits(&number(n), 10);
        let short = d[3] == d[0] + 1 && d[1] == d[2];
        if d[0] != d[3] && !short {
            assert_eq!(kaprekar(number(n), None, Some(8)).unwrap(), number(6174), "{}", n);
        }
    }
}

#[test]
fn kaprekar_drops_leading_zeros() {
    assert_eq!(kaprekar(number(2111), None, None).unwrap(), number(0));
    assert_eq!(kaprekar(number(495), Some(10), None).unwrap(), number(495));
}

#[test]
fn kaprekar_iteration_limit() {
    assert_eq!(
        kaprekar(number(3524), None, Some(3)).unwrap_err(),
        Error::IterationLimitExceeded
    );
    assert_eq!(kaprekar(number(3524), None, Some(4)).unwrap(), number(6174));
}

#[test]
fn kaprekar_in_another_base() {
    // 6 is 110 in base 2: 110 - 011 = 11 (3), then 11 - 11 = 0.
    assert_eq!(kaprekar(number(6), Some(2), None).unwrap(), number(0));
}

#[test]
fn sorted_digit_extremes_of_3524() {
    assert_eq!(sorted_digit_extremes(&number(3524), 10), number(3087));
    assert_eq!(sorted_digit_extremes(&number(3087), 10), number(8352));
    assert_eq!(sorted_digit_extremes(&number(8352), 10), number(6174));
}

#[test]
fn sorted_digits_ascending() {
    assert_eq!(sorted_digits(&number(3524), 10), vec![2, 3, 4, 5]);
    assert_eq!(sorted_digits(&number(255), 16), vec![15, 15]);
    assert_eq!(sorted_digits(&number(0), 10), vec![0]);
}

fn numbers(values: &[u64]) -> Vec<Natural> {
    values.iter().map(|&v| number(v)).collect()
}

fn decimal(text: &str) -> Natural {
    let digits: Vec<u8> = text.bytes().map(|c| c - b'0').collect();
    Natural::from_digits_be(&digits, 10).unwrap()
}

fn u128_max() -> Natural {
    decimal(&u128::MAX.to_string())
}

/// 3 * (2^128 - 1) + 1, the value after `u128::MAX` in its trajectory.
fn after_u128_max() -> Natural {
    decimal("1020847100762815390390123822295304634366")
}

#[test]
fn collatz_of_5() {
    assert_eq!(collatz(&number(5)).unwrap(), numbers(&[5, 16, 8, 4, 2, 1]));
}

#[test]
fn collatz_of_1() {
    assert_eq!(collatz(&number(1)).unwrap(), numbers(&[1]));
}

#[test]
fn collatz_of_0_is_invalid() {
    assert_eq!(collatz(&number(0)).unwrap_err(), Error::InvalidInput);
}

#[test]
fn collatz_of_27() {
    let s = collatz(&number(27)).unwrap();
    assert_eq!(s.len(), 112);
    assert!(s.contains(&number(9232)));
    assert!(!s.contains(&number(9233)));
}

#[test]
fn collatz_goes_past_128_bits() {
    let start = u128_max();
    let s = collatz(&start).unwrap();
    assert_eq!(s.len(), 1662);
    assert_eq!(s[0], start);
    assert_eq!(s[1], after_u128_max());
    assert_eq!(s[2], decimal("510423550381407695195061911147652317183"));
    assert_eq!(s[s.len() - 1], number(1));
}

#[test]
fn collatz_of_a_long_trajectory() {
    // 2^10001 halves 10001 times down to 1.
    let mut bits = vec![0u8; 10002];
    bits[0] = 1;
    let start = Natural::from_digits_be(&bits, 2).unwrap();
    let s = collatz(&start).unwrap();
    assert_eq!(s.len(), 10002);
    assert_eq!(s[s.len() - 2], number(2));
    assert_eq!(s[s.len() - 1], number(1));
}

#[test]
fn collatz_iterator_matches_vector() {
    for start in [1u64, 5, 27, 97] {
        let mut it = CollatzIterator::new(number(start)).unwrap();
        let mut seen = Vec::new();
        while let Some(x) = it.next() {
            seen.push(x);
        }
        assert_eq!(seen, collatz(&number(start)).unwrap());
        assert!(it.next().is_none());
        assert!(it.next().is_none());
    }
}

#[test]
fn collatz_iterator_from_zero_is_invalid() {
    assert_eq!(CollatzIterator::new(number(0)).err(), Some(Error::InvalidInput));
}

#[test]
fn collatz_iterator_goes_past_128_bits() {
    let mut it = CollatzIterator::new(u128_max()).unwrap();
    assert_eq!(it.next(), Some(u128_max()));
    assert_eq!(it.next(), Some(after_u128_max()));
}

#[test]
fn fibonacci_numbers() {
    assert_eq!(fibonacci(10, None, None), Integer::from_i64(55));
    assert_eq!(fibonacci(20, None, None), Integer::from_i64(6765));
    assert_eq!(fibonacci(0, None, None), Integer::from_i64(0));
    assert_eq!(fibonacci(1, None, None), Integer::from_i64(1));
    assert_eq!(fibonacci(10, Some(1), Some(-1)), Integer::from_i64(55));
}

#[test]
fn pell_and_jacobsthal_numbers() {
    assert_eq!(fibonacci(10, Some(2), Some(-1)), Integer::from_i64(2378));
    assert_eq!(fibonacci(10, Some(1), Some(-2)), Integer::from_i64(341));
}

#[test]
fn lucas_sequence_with_negative_terms() {
    // p = -1, q = -1: 0, 1, -1, 2, -3, 5, ...
    let f = fibonacci(4, Some(-1), Some(-1));
    assert!(f.is_negative());
    assert_eq!(f, Integer::from_i64(-3));
    assert_eq!(fibonacci(5, Some(-1), Some(-1)), Integer::from_i64(5));
}

#[test]
fn fibonacci_of_1000_has_209_digits() {
    let f = fibonacci(1000, None, None);
    assert!(!f.is_negative());
    assert_eq!(f.magnitude_digits_le().len(), 209);
}

#[test]
fn look_and_say_of_3211() {
    assert_eq!(look_and_say(&number(3211)).unwrap(), number(131221));
}

#[test]
fn look_and_say_examples() {
    assert_eq!(look_and_say(&number(1)).unwrap(), number(11));
    assert_eq!(look_and_say(&number(12)).unwrap(), number(1112));
    assert_eq!(look_and_say(&number(2333355)).unwrap(), number(124325));
    assert_eq!(look_and_say(&number(0)).unwrap(), number(10));
    let mut n = number(1);
    for _ in 0..4 {
        n = look_and_say(&n).unwrap();
    }
    assert_eq!(n, number(111221));
}

#[test]
fn look_and_say_run_of_ten_fails() {
    assert_eq!(
        look_and_say(&number(1111111111)).unwrap_err(),
        Error::ReconstructionError
    );
    assert_eq!(
        look_and_say(&number(21111111111)).unwrap_err(),
        Error::ReconstructionError
    );
    assert_eq!(look_and_say(&number(111111111)).unwrap(), number(91));
}

#[test]
fn natural_from_digits() {
    assert_eq!(Natural::from_digits_be(&vec![0, 1, 2, 3], 10).unwrap(), number(123));
    assert_eq!(Natural::from_digits_be(&vec![1, 0, 1], 2).unwrap(), number(5));
    assert_eq!(Natural::from_digits_be(&vec![], 10).unwrap(), number(0));
    assert!(Natural::from_digits_be(&vec![1, 10], 10).is_none());
}

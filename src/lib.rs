//! Digit puzzles on arbitrary-precision integers: Lychrel reverse-and-add,
//! Kaprekar's routine, look-and-say, Lucas sequences and Collatz trajectories.

pub mod digits;
pub mod error;
pub mod integer;
pub mod natural;

pub mod collatz;
pub mod kaprekar;
pub mod kaprekar_constant;
pub mod look_and_say;
pub mod lucas;
pub mod lychrel;

//! Small verified utilities: a prime sieve (over a vector of booleans and
//! over a bit vector), remainders of arrays by const generics, ordered
//! combination trees, integer partitions, word and character counts, file
//! name tests for directory walks, a parsing chain with wrapped errors, and
//! the decisions of a few command-line tools.

pub mod arrays;
pub mod cli;
pub mod combos;
pub mod counter;
pub mod entries;
pub mod errors;
pub mod found;
pub mod partition;
pub mod reverse;
pub mod sieve;
pub mod sieve_bits;
pub mod text;
pub mod words;

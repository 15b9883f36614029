//! A structural JSON difference and similarity library.
//!
//! The library compares two tree-shaped values (the JSON data model) and
//! produces a difference tree together with a normalized similarity score.
//! Objects are compared key by key, arrays are aligned by a longest-common-
//! subsequence matrix weighted with the recursive similarity of their
//! elements, and every other pair of values is compared for deep equality.
//!
//! Scores are exact rationals in lowest terms with 32-bit parts; where an
//! exact score cannot be represented, the entry points return `None`
//! rather than round.

pub mod decimal;
pub mod diff;
pub mod laws;
pub mod matrix;
pub mod model;
pub mod rat;
pub mod value;

pub use diff::{compare, diff, similarity, value_diff};
pub use matrix::{length, Length};
pub use model::Sign;
pub use rat::Rat;
pub use value::{Num, Value};

//! Pure transformations of finite lists.
//!
//! - [`element`]: the last element, the last two, the `k`-th, and the length.
//! - [`mirror`]: reversal, and whether a list reads the same from both ends.
//! - [`nested`]: nested lists and their flattening.
//! - [`rle`]: run-length coding in two token forms, decoding, and the two
//!   relatives that keep one element of each run or group the runs.
//! - [`repeat`]: each element repeated, and every `n`-th element dropped.
//!
//! Every function takes a slice and returns a new value; none fails. The
//! contracts speak of the `Seq` views of slices and vectors. Those of the
//! functions that work on runs of equal elements are stated over one model,
//! [`runs::runs`], and hold for element types whose `==` is known to decide
//! equality (see [`equality::decides_equality`]).

pub mod element;
pub mod equality;
pub mod mirror;
pub mod nested;
pub mod repeat;
pub mod rle;
pub mod runs;

pub use element::{at, last, last_two, length};
pub use mirror::{is_palindrome, rev};
pub use nested::{flatten, Node};
pub use repeat::{dropn, duplicate, replicate};
pub use rle::{compress, decode, encode, mod_encode, pack, Rle};

//! Zeckendorf-coded vectors: values written as sums of non-consecutive
//! Fibonacci numbers, compared through the bits that they share.

use vstd::prelude::*;

pub mod bits;
pub mod fib;
pub mod grid;
pub mod representation;
pub mod signed;
pub mod vector;
pub mod zeckendorf;
pub mod zeckengold;

pub use grid::CountMatrix;
pub use vector::{WormholeCensus, ZeckendorfVector};
pub use zeckendorf::{Resonance, ZeckendorfBits, FIB_LEN};

verus! {

} // verus!

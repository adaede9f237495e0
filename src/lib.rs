//! Exact arithmetic on dyadic rationals `x / 2^k` and on numbers `a + b√2`.
//!
//! Every operation works on fixed-width integers. Overflow is ruled out by
//! each operation's precondition rather than detected at run time.
pub mod dyadic;
pub mod root_two;

pub use dyadic::Dyadic;
pub use root_two::{Adj2, RootTwo};

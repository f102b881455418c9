//! Assigns staged hunks to the ancestor commits whose lines they touch.
//!
//! The library holds the pure core: an owned diff model, the hunk
//! commutation kernel, the search for each hunk's destination commit, the
//! bytes of a patched file, the message of a fixup commit and the bounds of
//! the stack of candidate commits.
use vstd::prelude::*;

pub mod bytes;
pub mod owned;
pub mod commute;
pub mod patcher;
pub mod absorb;
pub mod stack;

pub use absorb::Config;

verus! {

} // verus!

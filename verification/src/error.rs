//! The error of this library.

use vstd::prelude::*;

verus! {

/// The one error: a key that has not the length the algorithm demands. It
/// carries no detail, on purpose: nothing about key material leaves through it.
#[derive(Clone, Copy, Debug, PartialEq, Eq)]
pub struct Unspecified;

} // verus!

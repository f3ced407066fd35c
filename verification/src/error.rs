//! What the library reports when it refuses its input.

use vstd::prelude::*;

verus! {

/// The reasons for which input is refused.
#[derive(Clone, Copy, Debug, PartialEq, Eq, Structural)]
pub enum CurveError {
    /// A parameter lies outside its domain, or the parameters together
    /// describe no curve that can be resolved.
    InvalidParameter,
}

} // verus!

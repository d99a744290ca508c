//! What can go wrong when making or rendering art.
use vstd::prelude::*;

verus! {

/// Why art could not be made or rendered.
#[derive(Clone, Copy, Debug, PartialEq, Eq, Structural)]
pub enum AsciiError {
    /// A zero block side, an empty character ramp or a zero font size.
    InvalidConfiguration,
}

} // verus!

use vstd::prelude::*;

verus! {

/// Why a run fails.
#[derive(Clone, Copy, Debug, PartialEq, Eq, Structural)]
pub enum RasterError {
    /// The grid size is malformed or has a zero dimension.
    Configuration,
    /// The input is not one of the accepted image encodings.
    UnsupportedFormat,
    /// The input claims an accepted encoding but does not decode as one.
    Decode,
}

} // verus!

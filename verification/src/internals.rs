//! Progress of a row kernel.

use vstd::prelude::*;

verus! {

/// Where a row kernel stopped: the first luma column and the first chroma byte
/// that it did not write.
#[derive(Clone, Copy, Debug, PartialEq, Eq, Structural)]
pub struct ProcessedOffset {
    pub cx: usize,
    pub ux: usize,
}

} // verus!

//! The failure conditions a transform can report. None of the verified
//! functions panic: every rejected input is reported through one of these.

use vstd::prelude::*;

verus! {

/// Why a transform refused its input.
#[derive(Clone, Copy, Debug, PartialEq, Eq)]
pub enum TransformError {
    /// A raw buffer's length does not match the declared dimensions and stride.
    SizeMismatch,
    /// Two rasters that must share dimensions do not.
    DimensionMismatch,
    /// A parameter is outside its documented range (a shade count below two,
    /// a seam count exceeding the current width, an unimplemented fill mode).
    InvalidParameter,
}

} // verus!

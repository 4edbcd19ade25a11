//! The library's error type.
use vstd::prelude::*;

verus! {

/// Errors raised while preparing an analysis or a rendering.
#[derive(Debug)]
pub enum CoreError {
    /// A DSP configuration or processing failure, with its message.
    Dsp(String),
}

} // verus!

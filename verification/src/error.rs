//! The conditions on which the pipeline refuses its input.

use vstd::prelude::*;

verus! {

/// Why a pipeline stage refused to run. Every such refusal ends the run: no
/// stage hands out a partial result beside it.
#[derive(Debug, Clone, Copy, PartialEq, Eq, Structural)]
pub enum PipelineError {
    /// A parameter is out of range: a filter width that is not positive, a
    /// channel count of zero, or an analysis window too small to step by half
    /// of itself.
    Config,
    /// A buffer that has to hold at least one sample holds none.
    EmptyInput,
}

} // verus!

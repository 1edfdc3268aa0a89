//! Streaming single-pole filters over integer sample streams, channel
//! (de)interleaving, and the window planning and bin ordering of a
//! sliding-window spectral analyzer.
//!
//! The library holds no floating point. The weighted average of the
//! filters, the transform and the frequencies of the analyzer are computed
//! by its callers: the filters take the function that averages, and the
//! analyzer hands out the windows to transform.

pub mod channels;
pub mod error;
pub mod hi_pass_filter;
pub mod lo_pass_filter;
pub mod pipeline;
pub mod sample;
pub mod spectrum;
pub mod tee;

//! The filters applied to an interleaved buffer, channel by channel.
//!
//! The buffer is split into its channels, each channel is filtered on its
//! own from the state zero, and the outputs are merged back frame by frame.
//! Samples after the last whole frame of the buffer are left out.

use vstd::prelude::*;
use crate::channels::{contents, deinterleave, deinterleaved, interleave, interleaved};
use crate::error::PipelineError;
use crate::hi_pass_filter::{high_pass, sharpens};
use crate::lo_pass_filter::{low_pass, smooths, total_at};

verus! {

/// Whether `output` is an output for `samples` of the filter that `high`
/// chooses, the high-pass or the low-pass filter, from the state zero.
pub open spec fn filters<A: Fn(i32, i32, i32) -> i32>(
    high: bool,
    average: A,
    samples: Seq<i32>,
    width: i32,
    output: Seq<i32>,
) -> bool {
    if high {
        sharpens(average, samples, 0, width, output)
    } else {
        smooths(average, samples, 0, width, output)
    }
}

/// Whether `merged` is the round-robin merge of one filter output for each
/// channel of `samples`.
pub open spec fn filters_channels<A: Fn(i32, i32, i32) -> i32>(
    high: bool,
    average: A,
    samples: Seq<i32>,
    channels: int,
    width: i32,
    merged: Seq<i32>,
) -> bool {
    exists|outputs: Seq<Seq<i32>>|
        {
            &&& outputs.len() == channels
            &&& forall|c: int|
                0 <= c < channels ==> filters(
                    high,
                    average,
                    deinterleaved(samples, channels)[c],
                    width,
                    #[trigger] outputs[c],
                )
            &&& merged == #[trigger] interleaved(outputs)
        }
}

fn filter_channels<A: Fn(i32, i32, i32) -> i32 + Copy>(
    high: bool,
    samples: &Vec<i32>,
    channels: usize,
    width: i32,
    average: A,
) -> (filtered: Result<Vec<i32>, PipelineError>)
    requires
        width > 0 ==> total_at(average, width),
    ensures
        channels > 0 && width > 0 <==> filtered is Ok,
        filtered is Err ==> filtered matches Err(PipelineError::Config),
        filtered matches Ok(merged) ==> filters_channels(
            high,
            average,
            samples@,
            channels as int,
            width,
            merged@,
        ),
{
    if width <= 0 {
        return Err(PipelineError::Config);
    }
    let mut streams = match deinterleave(samples, channels) {
        Ok(streams) => streams,
        Err(refusal) => {
            return Err(refusal);
        },
    };
    let ghost split = deinterleaved(samples@, channels as int);
    let mut outputs: Vec<Vec<i32>> = Vec::new();
    proof {
        assert(contents(streams@).skip(0) == contents(streams@));
    }
    while streams.len() > 0
        invariant
            width > 0,
            total_at(average, width),
            split.len() == channels,
            outputs.len() + streams.len() == channels,
            contents(streams@) == split.skip(outputs.len() as int),
            forall|c: int|
                0 <= c < outputs.len() ==> filters(
                    high,
                    average,
                    split[c],
                    width,
                    #[trigger] contents(outputs@)[c],
                ),
        decreases streams.len(),
    {
        let ghost before = contents(streams@);
        let ghost done = contents(outputs@);
        let stream = streams.remove(0);
        assert(stream@ == before[0]);
        assert(contents(streams@) =~= before.drop_first());
        assert(before.drop_first() == split.skip(outputs.len() + 1));
        let result = if high {
            high_pass(stream, width, average)
        } else {
            low_pass(stream, width, average)
        };
        match result {
            Ok(output) => {
                outputs.push(output);
                assert forall|c: int| 0 <= c < outputs.len() implies filters(
                    high,
                    average,
                    split[c],
                    width,
                    #[trigger] contents(outputs@)[c],
                ) by {
                    if c < outputs.len() - 1 {
                        assert(contents(outputs@)[c] == done[c]);
                    }
                }
            },
            Err(refusal) => {
                return Err(refusal);
            },
        }
    }
    let merged = interleave(&outputs);
    assert(filters_channels(high, average, samples@, channels as int, width, merged@)) by {
        let witness = contents(outputs@);
        assert(merged@ == interleaved(witness));
    }
    Ok(merged)
}

/// Smooths each channel of an interleaved buffer. A channel count of zero
/// and a width that is not positive are refused.
pub fn low_pass_channels<A: Fn(i32, i32, i32) -> i32 + Copy>(
    samples: &Vec<i32>,
    channels: usize,
    width: i32,
    average: A,
) -> (filtered: Result<Vec<i32>, PipelineError>)
    requires
        width > 0 ==> total_at(average, width),
    ensures
        channels > 0 && width > 0 <==> filtered is Ok,
        filtered is Err ==> filtered matches Err(PipelineError::Config),
        filtered matches Ok(merged) ==> filters_channels(
            false,
            average,
            samples@,
            channels as int,
            width,
            merged@,
        ),
{
    filter_channels(false, samples, channels, width, average)
}

/// Applies the high-pass filter to each channel of an interleaved buffer. A
/// channel count of zero and a width that is not positive are refused.
pub fn high_pass_channels<A: Fn(i32, i32, i32) -> i32 + Copy>(
    samples: &Vec<i32>,
    channels: usize,
    width: i32,
    average: A,
) -> (filtered: Result<Vec<i32>, PipelineError>)
    requires
        width > 0 ==> total_at(average, width),
    ensures
        channels > 0 && width > 0 <==> filtered is Ok,
        filtered is Err ==> filtered matches Err(PipelineError::Config),
        filtered matches Ok(merged) ==> filters_channels(
            true,
            average,
            samples@,
            channels as int,
            width,
            merged@,
        ),
{
    filter_channels(true, samples, channels, width, average)
}

} // verus!

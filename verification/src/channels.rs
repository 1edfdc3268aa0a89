//! Splitting an interleaved buffer into its channels, and merging channels
//! back into one buffer.
//!
//! A frame is one sample of each channel, in the order of the channels. Only
//! whole frames are taken over: samples that follow the last whole frame of a
//! buffer are left out, and so is what a channel holds beyond the length of
//! the shortest.

use vstd::prelude::*;
use vstd::arithmetic::div_mod::{
    lemma_fundamental_div_mod, lemma_fundamental_div_mod_converse, lemma_mod_bound,
};
use crate::error::PipelineError;

verus! {

/// Channel `c` of an interleaved buffer of `channels` channels: the samples
/// at `c`, `c + channels`, `c + 2 * channels` and so on, one for each whole
/// frame.
pub open spec fn channel_of(samples: Seq<i32>, channels: int, c: int) -> Seq<i32> {
    Seq::new((samples.len() / channels as nat) as nat, |j: int| samples[j * channels + c])
}

/// All the channels of an interleaved buffer, in order.
pub open spec fn deinterleaved(samples: Seq<i32>, channels: int) -> Seq<Seq<i32>> {
    Seq::new(channels as nat, |c: int| channel_of(samples, channels, c))
}

/// The length of the shortest of `streams`, and zero where there is none.
pub open spec fn shortest(streams: Seq<Seq<i32>>) -> nat
    decreases streams.len(),
{
    if streams.len() == 0 {
        0
    } else if streams.len() == 1 {
        streams[0].len()
    } else {
        let others = shortest(streams.drop_last());
        if streams.last().len() < others {
            streams.last().len()
        } else {
            others
        }
    }
}

/// The round-robin merge of `streams`: frame after frame, as many as the
/// shortest stream has samples.
pub open spec fn interleaved(streams: Seq<Seq<i32>>) -> Seq<i32> {
    Seq::new(
        shortest(streams) * streams.len(),
        |k: int| streams[k % streams.len() as int][k / streams.len() as int],
    )
}

/// The contents of each of `streams`.
pub open spec fn contents(streams: Seq<Vec<i32>>) -> Seq<Seq<i32>> {
    Seq::new(streams.len(), |c: int| streams[c]@)
}

/// The place of sample `j` of channel `c` in the interleaved buffer, and
/// back.
pub proof fn lemma_frame_position(j: int, c: int, channels: int)
    requires
        0 <= j,
        0 <= c < channels,
    ensures
        (j * channels + c) / channels == j,
        (j * channels + c) % channels == c,
        0 <= j * channels,
{
    lemma_fundamental_div_mod_converse(j * channels + c, channels, j, c);
    assert(0 <= j * channels) by (nonlinear_arith)
        requires
            0 <= j,
            0 < channels,
    ;
}

/// A sample of a whole frame lies within the buffer.
pub proof fn lemma_frame_within(len: int, j: int, c: int, channels: int)
    requires
        0 <= j < len / channels,
        0 <= c < channels,
        0 <= len,
    ensures
        0 <= j * channels + c < len,
        (len / channels) * channels <= len,
{
    lemma_fundamental_div_mod(len, channels);
    lemma_mod_bound(len, channels);
    assert(0 <= j * channels && j * channels + channels <= (len / channels) * channels)
        by (nonlinear_arith)
        requires
            0 <= j < len / channels,
            0 < channels,
    ;
    assert((len / channels) * channels == channels * (len / channels)) by (nonlinear_arith);
}

/// No stream is shorter than the shortest.
pub proof fn lemma_shortest_is_lower_bound(streams: Seq<Seq<i32>>, c: int)
    requires
        0 <= c < streams.len(),
    ensures
        shortest(streams) <= streams[c].len(),
    decreases streams.len(),
{
    if streams.len() > 1 && c < streams.len() - 1 {
        lemma_shortest_is_lower_bound(streams.drop_last(), c);
    }
}

/// Where every stream has the same length, that is the shortest.
pub proof fn lemma_shortest_of_equals(streams: Seq<Seq<i32>>, len: nat)
    requires
        streams.len() > 0,
        forall|c: int| 0 <= c < streams.len() ==> (#[trigger] streams[c]).len() == len,
    ensures
        shortest(streams) == len,
    decreases streams.len(),
{
    if streams.len() > 1 {
        lemma_shortest_of_equals(streams.drop_last(), len);
    }
}

/// Splits an interleaved buffer into its channels. A channel count of zero
/// is refused.
pub fn deinterleave(samples: &Vec<i32>, channels: usize) -> (split: Result<
    Vec<Vec<i32>>,
    PipelineError,
>)
    ensures
        channels > 0 <==> split is Ok,
        channels == 0 ==> split matches Err(PipelineError::Config),
        split matches Ok(streams) ==> contents(streams@) == deinterleaved(
            samples@,
            channels as int,
        ),
{
    if channels == 0 {
        return Err(PipelineError::Config);
    }
    let frames = samples.len() / channels;
    let mut streams: Vec<Vec<i32>> = Vec::new();
    let mut c: usize = 0;
    while c < channels
        invariant
            0 < channels,
            c <= channels,
            frames == samples.len() / channels,
            streams.len() == c,
            forall|b: int|
                0 <= b < c ==> (#[trigger] streams[b])@ == channel_of(
                    samples@,
                    channels as int,
                    b,
                ),
        decreases channels - c,
    {
        let mut stream: Vec<i32> = Vec::new();
        let mut j: usize = 0;
        while j < frames
            invariant
                0 < channels,
                c < channels,
                frames == samples.len() / channels,
                j <= frames,
                stream.len() == j,
                forall|i: int|
                    0 <= i < j ==> #[trigger] stream[i] == samples[i * channels + c],
            decreases frames - j,
        {
            proof {
                lemma_frame_within(samples.len() as int, j as int, c as int, channels as int);
            }
            stream.push(samples[j * channels + c]);
            j = j + 1;
        }
        assert(stream@ =~= channel_of(samples@, channels as int, c as int));
        streams.push(stream);
        c = c + 1;
    }
    assert(contents(streams@) =~= deinterleaved(samples@, channels as int));
    Ok(streams)
}

/// Merges `streams` frame by frame into one interleaved buffer.
pub fn interleave(streams: &Vec<Vec<i32>>) -> (merged: Vec<i32>)
    ensures
        merged@ == interleaved(contents(streams@)),
{
    let count = streams.len();
    let mut merged: Vec<i32> = Vec::new();
    if count == 0 {
        assert(merged@ =~= interleaved(contents(streams@)));
        return merged;
    }
    let ghost all = contents(streams@);
    let mut frames = streams[0].len();
    let mut seen: usize = 1;
    while seen < count
        invariant
            1 <= seen <= count,
            count == streams.len(),
            all == contents(streams@),
            frames == shortest(all.take(seen as int)),
        decreases count - seen,
    {
        proof {
            assert(all.take(seen + 1).drop_last() == all.take(seen as int));
        }
        if streams[seen].len() < frames {
            frames = streams[seen].len();
        }
        seen = seen + 1;
    }
    proof {
        assert(all.take(count as int) == all);
    }
    let mut j: usize = 0;
    while j < frames
        invariant
            0 < count == streams.len(),
            all == contents(streams@),
            frames == shortest(all),
            j <= frames,
            merged.len() == j * count,
            forall|k: int|
                0 <= k < j * count ==> #[trigger] merged[k] == all[k % count as int][k
                    / count as int],
        decreases frames - j,
    {
        let mut c: usize = 0;
        while c < count
            invariant
                0 < count == streams.len(),
                all == contents(streams@),
                frames == shortest(all),
                j < frames,
                c <= count,
                merged.len() == j * count + c,
                forall|k: int|
                    0 <= k < j * count + c ==> #[trigger] merged[k] == all[k % count as int][k
                        / count as int],
            decreases count - c,
        {
            proof {
                lemma_shortest_is_lower_bound(all, c as int);
                lemma_frame_position(j as int, c as int, count as int);
            }
            merged.push(streams[c][j]);
            c = c + 1;
        }
        proof {
            assert(j * count + count == (j + 1) * count) by (nonlinear_arith);
        }
        j = j + 1;
    }
    assert(merged@ =~= interleaved(all));
    merged
}

/// Merging the channels of a buffer gives back its whole frames, in order:
/// the buffer itself where its length is a multiple of the channel count.
pub proof fn lemma_interleave_deinterleave(samples: Seq<i32>, channels: int)
    requires
        channels > 0,
    ensures
        interleaved(deinterleaved(samples, channels)) == samples.take(
            samples.len() - samples.len() % (channels as nat),
        ),
        samples.len() % (channels as nat) == 0 ==> interleaved(
            deinterleaved(samples, channels),
        ) == samples,
{
    let len = samples.len() as int;
    let frames = len / channels;
    let streams = deinterleaved(samples, channels);
    lemma_fundamental_div_mod(len, channels);
    lemma_mod_bound(len, channels);
    lemma_shortest_of_equals(streams, frames as nat);
    assert(frames * channels == channels * frames) by (nonlinear_arith);
    let whole = samples.take(len - len % channels);
    let merged = interleaved(streams);
    assert(merged.len() == whole.len());
    assert forall|k: int| 0 <= k < merged.len() implies merged[k] == whole[k] by {
        lemma_fundamental_div_mod(k, channels);
        lemma_mod_bound(k, channels);
        assert(0 <= k / channels < frames) by (nonlinear_arith)
            requires
                0 <= k < frames * channels,
                channels > 0,
                k == channels * (k / channels) + k % channels,
                0 <= k % channels < channels,
        ;
        assert((k / channels) * channels == channels * (k / channels)) by (nonlinear_arith);
    }
    assert(merged =~= whole);
    if len % channels == 0 {
        assert(whole =~= samples);
    }
}

/// Splitting the merge of streams of one length gives back the streams.
pub proof fn lemma_deinterleave_interleave(streams: Seq<Seq<i32>>, len: nat)
    requires
        streams.len() > 0,
        forall|c: int| 0 <= c < streams.len() ==> (#[trigger] streams[c]).len() == len,
    ensures
        deinterleaved(interleaved(streams), streams.len() as int) == streams,
{
    let count = streams.len() as int;
    let merged = interleaved(streams);
    let split = deinterleaved(merged, count);
    lemma_shortest_of_equals(streams, len);
    assert(merged.len() == len * count);
    lemma_fundamental_div_mod_converse(len * count, count, len as int, 0);
    assert forall|c: int| 0 <= c < count implies #[trigger] split[c] == streams[c] by {
        assert forall|j: int| 0 <= j < len implies split[c][j] == streams[c][j] by {
            lemma_frame_position(j, c, count);
            assert(j * count + c < len * count) by (nonlinear_arith)
                requires
                    0 <= j < len,
                    0 <= c < count,
            ;
        }
        assert(split[c] =~= streams[c]);
    }
    assert(split =~= streams);
}

} // verus!

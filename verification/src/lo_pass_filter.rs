//! The single-pole low-pass filter over a pull-based sample stream, and the
//! interface that it shares with the high-pass filter.
//!
//! A stream is any iterator of `i32` samples. A filter owns its stream and
//! hands out one output for each sample that it pulls: it pulls nothing
//! before it is pulled itself, and hands out nothing once the stream is
//! exhausted.
//!
//! The weighted average of a sample and the previous output is a matter of
//! floating point, which this library does not hold. A filter is therefore
//! made with the function that computes it, the averager, which takes the
//! sample, the previous output and the width, in this order. The library
//! decides what is handed to the averager and what becomes of its result,
//! and its contracts say so over the averager's own postcondition.
//!
//! What a filter will hand out is stated over the samples that its stream
//! still holds, for every stream that keeps the iterator laws of `vstd`: it
//! yields a fixed sequence of samples and `None` from then on.

use vstd::prelude::*;
use vstd::std_specs::iter::IteratorSpec;
use crate::error::PipelineError;

verus! {

/// The output that the sample at `i` is averaged with: the output before it,
/// or `previous`, the state at the start, for the first sample.
pub open spec fn state_before(outputs: Seq<i32>, previous: i32, i: int) -> i32 {
    if i <= 0 {
        previous
    } else {
        outputs[i - 1]
    }
}

/// The state of a filter after `outputs`: the last of them, or `previous`
/// where there is none.
pub open spec fn settled(outputs: Seq<i32>, previous: i32) -> i32 {
    state_before(outputs, previous, outputs.len() as int)
}

/// Whether `outputs` is a low-pass output for `samples`, by a filter of the
/// given width whose state at the start is `previous`: there is one output
/// for each sample, and each is a result of the averager for its sample, the
/// output before it, and the width.
pub open spec fn smooths<A: Fn(i32, i32, i32) -> i32>(
    average: A,
    samples: Seq<i32>,
    previous: i32,
    width: i32,
    outputs: Seq<i32>,
) -> bool {
    &&& outputs.len() == samples.len()
    &&& forall|i: int|
        0 <= i < outputs.len() ==> average.ensures(
            (samples[i], state_before(outputs, previous, i), width),
            #[trigger] outputs[i],
        )
}

/// Whether the averager can be called at `width` on every sample and every
/// previous output.
pub open spec fn total_at<A: Fn(i32, i32, i32) -> i32>(average: A, width: i32) -> bool {
    forall|sample: i32, previous: i32| average.requires((sample, previous, width))
}

/// Whether the averager has one result only for each sample, previous output
/// and width.
pub open spec fn single_valued<A: Fn(i32, i32, i32) -> i32>(average: A) -> bool {
    forall|sample: i32, previous: i32, width: i32, one: i32, other: i32|
        average.ensures((sample, previous, width), one) && average.ensures(
            (sample, previous, width),
            other,
        ) ==> one == other
}

/// How many samples a pull of `count` gets from a stream that holds
/// `available`: all that are asked for, or all that are there.
pub open spec fn reach(available: nat, count: usize) -> int {
    if count <= available {
        count as int
    } else {
        available as int
    }
}

/// A filter over a stream of samples: made from the stream, a smoothing
/// width and an averager, and pulled one output at a time.
pub trait SignalFilter<T: Iterator<Item = i32>, A: Fn(i32, i32, i32) -> i32>: Sized {
    /// The smoothing width.
    spec fn width(&self) -> i32;

    /// The last output of the smoother, or zero before the first.
    spec fn previous(&self) -> i32;

    /// The averager.
    spec fn average(&self) -> A;

    /// Wraps `input`. A width that is not positive is refused.
    fn new(input: T, width: i32, average: A) -> (filter: Result<Self, PipelineError>)
        requires
            width > 0 ==> total_at(average, width),
        ensures
            width > 0 <==> filter is Ok,
            width <= 0 ==> filter matches Err(PipelineError::Config),
            filter matches Ok(made) ==> {
                &&& made.previous() == 0
                &&& made.width() == width
                &&& made.average() == average
            },
    ;

    /// Pulls one sample from the stream and hands out the output for it, or
    /// `None` once the stream is exhausted.
    fn next(&mut self) -> (sample: Option<i32>)
        ensures
            final(self).width() == old(self).width(),
            final(self).average() == old(self).average(),
            sample is None ==> final(self).previous() == old(self).previous(),
    ;
}

/// What a smoother keeps between two samples: its last output, zero at the
/// start, its width, which is positive, and its averager, which can be
/// called at that width.
#[verifier::reject_recursive_types(A)]
pub struct FilterState<A: Fn(i32, i32, i32) -> i32> {
    previous: i32,
    width: i32,
    average: A,
}

impl<A: Fn(i32, i32, i32) -> i32> FilterState<A> {
    #[verifier::type_invariant]
    spec fn usable(self) -> bool {
        self.width > 0 && total_at(self.average, self.width)
    }

    /// The last output, or zero before the first.
    pub closed spec fn previous(&self) -> i32 {
        self.previous
    }

    /// The smoothing width.
    pub closed spec fn width(&self) -> i32 {
        self.width
    }

    /// The averager.
    pub closed spec fn average(&self) -> A {
        self.average
    }

    /// The state before the first sample. A width that is not positive is
    /// refused.
    pub fn new(width: i32, average: A) -> (state: Result<Self, PipelineError>)
        requires
            width > 0 ==> total_at(average, width),
        ensures
            width > 0 <==> state is Ok,
            width <= 0 ==> state matches Err(PipelineError::Config),
            state matches Ok(made) ==> {
                &&& made.previous() == 0
                &&& made.width() == width
                &&& made.average() == average
            },
    {
        if width <= 0 {
            return Err(PipelineError::Config);
        }
        Ok(Self { previous: 0, width, average })
    }

    /// Takes in one sample: hands the sample, the last output and the width
    /// to the averager, and returns its result, which is the new state.
    pub fn advance(&mut self, sample: i32) -> (output: i32)
        ensures
            old(self).average().ensures((sample, old(self).previous(), old(self).width()), output),
            final(self).previous() == output,
            final(self).width() == old(self).width(),
            final(self).average() == old(self).average(),
    {
        proof {
            use_type_invariant(&*self);
        }
        let output = (self.average)(sample, self.previous, self.width);
        self.previous = output;
        output
    }
}

/// The single-pole smoother over a stream.
#[verifier::reject_recursive_types(A)]
pub struct LoPassFilter<T: Iterator<Item = i32>, A: Fn(i32, i32, i32) -> i32> {
    pub input: T,
    state: FilterState<A>,
}

impl<T: Iterator<Item = i32>, A: Fn(i32, i32, i32) -> i32> LoPassFilter<T, A> {
    /// The stream that the filter pulls from.
    pub closed spec fn source(&self) -> T {
        self.input
    }

    /// Pulls up to `count` samples and returns the outputs for them in
    /// order: fewer than `count` only where the stream ends first.
    pub fn take(&mut self, count: usize) -> (output: Vec<i32>)
        ensures
            final(self).width() == old(self).width(),
            final(self).average() == old(self).average(),
            old(self).source().obeys_prophetic_iter_laws() ==> {
                let pending = old(self).source().remaining();
                let taken = pending.take(reach(pending.len(), count));
                &&& final(self).source().obeys_prophetic_iter_laws()
                &&& smooths(
                    old(self).average(),
                    taken,
                    old(self).previous(),
                    old(self).width(),
                    output@,
                )
                &&& final(self).previous() == settled(output@, old(self).previous())
                &&& final(self).source().remaining() == pending.skip(
                    reach(pending.len(), count),
                )
            },
    {
        let mut output: Vec<i32> = Vec::new();
        let mut pulled: usize = 0;
        let ghost lawful = old(self).source().obeys_prophetic_iter_laws();
        let ghost pending = old(self).source().remaining();
        let ghost goal = reach(pending.len(), count);
        let ghost start = old(self).previous();
        proof {
            assert(pending.skip(0) == pending);
        }
        while pulled < count
            invariant
                pulled <= count,
                output.len() == pulled,
                self.width() == old(self).width(),
                self.average() == old(self).average(),
                goal == reach(pending.len(), count),
                lawful ==> {
                    &&& self.source().obeys_prophetic_iter_laws()
                    &&& pulled <= goal
                    &&& self.source().remaining() == pending.skip(pulled as int)
                    &&& smooths(
                        self.average(),
                        pending.take(pulled as int),
                        start,
                        self.width(),
                        output@,
                    )
                    &&& self.previous() == settled(output@, start)
                },
            ensures
                output.len() == pulled,
                self.width() == old(self).width(),
                self.average() == old(self).average(),
                lawful ==> {
                    &&& self.source().obeys_prophetic_iter_laws()
                    &&& pulled == goal
                    &&& self.source().remaining() == pending.skip(goal)
                    &&& smooths(self.average(), pending.take(goal), start, self.width(), output@)
                    &&& self.previous() == settled(output@, start)
                },
            decreases count - pulled,
        {
            let ghost before = output@;
            match self.next() {
                Some(sample) => {
                    output.push(sample);
                    proof {
                        if lawful {
                            assert(pending.skip(pulled as int).drop_first() == pending.skip(
                                pulled + 1,
                            ));
                            assert forall|i: int| 0 <= i < pulled implies output@[i] == before[i]
                                && state_before(output@, start, i) == state_before(
                                before,
                                start,
                                i,
                            ) by {}
                        }
                    }
                    pulled = pulled + 1;
                },
                None => {
                    break ;
                },
            }
        }
        output
    }
}

impl<T: Iterator<Item = i32>, A: Fn(i32, i32, i32) -> i32> SignalFilter<T, A> for LoPassFilter<
    T,
    A,
> {
    closed spec fn width(&self) -> i32 {
        self.state.width()
    }

    closed spec fn previous(&self) -> i32 {
        self.state.previous()
    }

    closed spec fn average(&self) -> A {
        self.state.average()
    }

    fn new(input: T, width: i32, average: A) -> (filter: Result<Self, PipelineError>)
        ensures
            filter matches Ok(made) ==> made.source() == input,
    {
        match FilterState::new(width, average) {
            Ok(state) => Ok(Self { input, state }),
            Err(refusal) => Err(refusal),
        }
    }

    fn next(&mut self) -> (sample: Option<i32>)
        ensures
            sample matches Some(output) ==> final(self).previous() == output,
            old(self).source().obeys_prophetic_iter_laws() ==> {
                let pending = old(self).source().remaining();
                &&& final(self).source().obeys_prophetic_iter_laws()
                &&& if pending.len() > 0 {
                    &&& sample is Some
                    &&& old(self).average().ensures(
                        (pending[0], old(self).previous(), old(self).width()),
                        sample->0,
                    )
                    &&& final(self).source().remaining() == pending.drop_first()
                } else {
                    &&& sample is None
                    &&& final(self).source().remaining() == pending
                }
            },
    {
        match self.input.next() {
            Some(sample) => Some(self.state.advance(sample)),
            None => None,
        }
    }
}

/// Runs the smoother over a whole buffer, from the state zero.
pub fn low_pass<A: Fn(i32, i32, i32) -> i32>(samples: Vec<i32>, width: i32, average: A) -> (filtered:
    Result<Vec<i32>, PipelineError>)
    requires
        width > 0 ==> total_at(average, width),
    ensures
        width > 0 <==> filtered is Ok,
        width <= 0 ==> filtered matches Err(PipelineError::Config),
        filtered matches Ok(output) ==> {
            &&& smooths(average, samples@, 0, width, output@)
            &&& output.len() == samples.len()
        },
{
    let count = samples.len();
    let ghost pending = samples@;
    let mut filter = match LoPassFilter::new(samples.into_iter(), width, average) {
        Ok(made) => made,
        Err(refusal) => {
            return Err(refusal);
        },
    };
    let output = filter.take(count);
    proof {
        assert(pending.take(pending.len() as int) == pending);
    }
    Ok(output)
}

/// The smoother hands out one output for each sample.
pub proof fn lemma_smooths_len<A: Fn(i32, i32, i32) -> i32>(
    average: A,
    samples: Seq<i32>,
    previous: i32,
    width: i32,
    outputs: Seq<i32>,
)
    requires
        smooths(average, samples, previous, width, outputs),
    ensures
        outputs.len() == samples.len(),
{
}

/// The outputs for a prefix of a buffer are a prefix of the outputs for the
/// buffer: no output depends on a sample that comes after it.
pub proof fn lemma_smooths_prefix<A: Fn(i32, i32, i32) -> i32>(
    average: A,
    samples: Seq<i32>,
    previous: i32,
    width: i32,
    outputs: Seq<i32>,
    n: int,
)
    requires
        smooths(average, samples, previous, width, outputs),
        0 <= n <= samples.len(),
    ensures
        smooths(average, samples.take(n), previous, width, outputs.take(n)),
{
    let (some, first) = (samples.take(n), outputs.take(n));
    assert forall|i: int| 0 <= i < first.len() implies average.ensures(
        (some[i], state_before(first, previous, i), width),
        #[trigger] first[i],
    ) by {
        assert(first[i] == outputs[i]);
        assert(state_before(first, previous, i) == state_before(outputs, previous, i));
    }
}

/// With an averager that has one result only, a buffer has one low-pass
/// output only.
pub proof fn lemma_smooths_unique<A: Fn(i32, i32, i32) -> i32>(
    average: A,
    samples: Seq<i32>,
    previous: i32,
    width: i32,
    one: Seq<i32>,
    other: Seq<i32>,
)
    requires
        single_valued(average),
        smooths(average, samples, previous, width, one),
        smooths(average, samples, previous, width, other),
    ensures
        one == other,
{
    assert forall|i: int| 0 <= i < one.len() implies one[i] == other[i] by {
        lemma_agree_up_to(average, samples, previous, width, one, other, i);
    }
    assert(one =~= other);
}

proof fn lemma_agree_up_to<A: Fn(i32, i32, i32) -> i32>(
    average: A,
    samples: Seq<i32>,
    previous: i32,
    width: i32,
    one: Seq<i32>,
    other: Seq<i32>,
    i: int,
)
    requires
        single_valued(average),
        smooths(average, samples, previous, width, one),
        smooths(average, samples, previous, width, other),
        0 <= i < samples.len(),
    ensures
        one[i] == other[i],
    decreases i,
{
    if i > 0 {
        lemma_agree_up_to(average, samples, previous, width, one, other, i - 1);
    }
    assert(average.ensures((samples[i], state_before(one, previous, i), width), one[i]));
    assert(average.ensures((samples[i], state_before(other, previous, i), width), other[i]));
}

/// A step: `len` samples of the same `height`.
pub open spec fn step(height: i32, len: nat) -> Seq<i32> {
    Seq::new(len, |i: int| height)
}

/// Whether one step of the averager at the width `wide` lags behind one at
/// the width `narrow`: on the way from zero toward a sample, from a previous
/// output that is no nearer to the sample than that of the narrow step, the
/// wide step moves no nearer to the sample than the narrow one; neither
/// moves back, and neither passes the sample.
pub open spec fn lags<A: Fn(i32, i32, i32) -> i32>(average: A, narrow: i32, wide: i32) -> bool {
    forall|sample: i32, behind: i32, ahead: i32, slow: i32, fast: i32|
        #[trigger] average.ensures((sample, behind, wide), slow) && #[trigger] average.ensures(
            (sample, ahead, narrow),
            fast,
        ) ==> {
            &&& 0 <= behind <= ahead <= sample ==> behind <= slow <= fast <= sample
            &&& sample <= ahead <= behind <= 0 ==> sample <= fast <= slow <= behind
        }
}

/// The response to a step, from the state zero, of a wide filter and of a
/// narrower one, for an averager whose single steps lag as `lags` says: at
/// every sample the wider filter has moved no further from zero toward the
/// step than the narrower one, and neither has passed it. Whether an
/// averager lags is a matter of its arithmetic and is not shown here.
pub proof fn lemma_wider_responds_less<A: Fn(i32, i32, i32) -> i32>(
    average: A,
    height: i32,
    len: nat,
    narrow: i32,
    wide: i32,
    fast: Seq<i32>,
    slow: Seq<i32>,
    k: int,
)
    requires
        lags(average, narrow, wide),
        smooths(average, step(height, len), 0, narrow, fast),
        smooths(average, step(height, len), 0, wide, slow),
        0 <= k < len,
    ensures
        height >= 0 ==> 0 <= slow[k] <= fast[k] <= height,
        height <= 0 ==> height <= fast[k] <= slow[k] <= 0,
    decreases k,
{
    let input = step(height, len);
    if k > 0 {
        lemma_wider_responds_less(average, height, len, narrow, wide, fast, slow, k - 1);
    }
    assert(average.ensures((input[k], state_before(slow, 0, k), wide), slow[k]));
    assert(average.ensures((input[k], state_before(fast, 0, k), narrow), fast[k]));
}

} // verus!

//! The high-pass filter: what a low-pass filter of the same width leaves of
//! each sample.

use vstd::prelude::*;
use vstd::std_specs::iter::IteratorSpec;
use itertools::Tee;
use crate::error::PipelineError;
use crate::lo_pass_filter::{
    lemma_smooths_unique, reach, settled, single_valued, smooths, state_before, total_at,
    LoPassFilter, SignalFilter,
};
use crate::sample::in_domain;
use crate::tee::{duplicate, pull};

verus! {

/// `minuend - subtrahend`, held to the range of `i32`.
pub open spec fn clipped_difference(minuend: i32, subtrahend: i32) -> i32 {
    let difference = minuend - subtrahend;
    if difference > i32::MAX {
        i32::MAX
    } else if difference < i32::MIN {
        i32::MIN
    } else {
        difference as i32
    }
}

/// Whether `outputs` is the high-pass output for `samples` that goes with
/// the low-pass output `lows`: each output is its sample less the low-pass
/// output for it, held to the range of `i32`.
pub open spec fn sharpens_with<A: Fn(i32, i32, i32) -> i32>(
    average: A,
    samples: Seq<i32>,
    previous: i32,
    width: i32,
    lows: Seq<i32>,
    outputs: Seq<i32>,
) -> bool {
    &&& smooths(average, samples, previous, width, lows)
    &&& outputs.len() == samples.len()
    &&& forall|i: int|
        0 <= i < outputs.len() ==> #[trigger] outputs[i] == clipped_difference(
            samples[i],
            lows[i],
        )
}

/// Whether `outputs` is a high-pass output for `samples`: the one that goes
/// with some low-pass output for them.
pub open spec fn sharpens<A: Fn(i32, i32, i32) -> i32>(
    average: A,
    samples: Seq<i32>,
    previous: i32,
    width: i32,
    outputs: Seq<i32>,
) -> bool {
    exists|lows: Seq<i32>| #[trigger] sharpens_with(average, samples, previous, width, lows, outputs)
}

/// The complement of the smoother. It duplicates its stream, smooths one
/// copy, and hands out each sample of the other less the smoothed one.
#[verifier::reject_recursive_types(T)]
#[verifier::reject_recursive_types(A)]
pub struct HiPassFilter<T: Iterator<Item = i32>, A: Fn(i32, i32, i32) -> i32> {
    lo_pass: LoPassFilter<Tee<T>, A>,
    dry: Tee<T>,
}

/// `minuend - subtrahend`, computed in 64 bits and held to the range of
/// `i32`.
fn clip(minuend: i32, subtrahend: i32) -> (difference: i32)
    ensures
        difference == clipped_difference(minuend, subtrahend),
{
    let wide: i64 = minuend as i64 - subtrahend as i64;
    if wide > i32::MAX as i64 {
        i32::MAX
    } else if wide < i32::MIN as i64 {
        i32::MIN
    } else {
        wide as i32
    }
}

impl<T: Iterator<Item = i32>, A: Fn(i32, i32, i32) -> i32> HiPassFilter<T, A> {
    /// The copy of the stream that is handed through.
    pub closed spec fn dry(&self) -> Tee<T> {
        self.dry
    }

    /// The copy of the stream that is smoothed.
    pub closed spec fn wet(&self) -> Tee<T> {
        self.lo_pass.source()
    }

    /// Pulls up to `count` samples and returns the outputs for them in
    /// order: fewer than `count` only where the stream ends first. The two
    /// copies of the stream hold the same samples from `new` on, and this is
    /// stated of a filter in which they do.
    pub fn take(&mut self, count: usize) -> (output: Vec<i32>)
        ensures
            final(self).width() == old(self).width(),
            final(self).average() == old(self).average(),
            ({
                let dry = old(self).dry();
                let wet = old(self).wet();
                dry.obeys_prophetic_iter_laws() && wet.obeys_prophetic_iter_laws()
                    && dry.remaining() == wet.remaining() ==> {
                    let pending = dry.remaining();
                    let taken = pending.take(reach(pending.len(), count));
                    &&& final(self).dry().obeys_prophetic_iter_laws()
                    &&& final(self).wet().obeys_prophetic_iter_laws()
                    &&& exists|lows: Seq<i32>|
                        {
                            &&& #[trigger] sharpens_with(
                                old(self).average(),
                                taken,
                                old(self).previous(),
                                old(self).width(),
                                lows,
                                output@,
                            )
                            &&& final(self).previous() == settled(lows, old(self).previous())
                        }
                    &&& final(self).dry().remaining() == pending.skip(
                        reach(pending.len(), count),
                    )
                    &&& final(self).wet().remaining() == final(self).dry().remaining()
                }
            }),
    {
        let mut output: Vec<i32> = Vec::new();
        let mut pulled: usize = 0;
        let ghost paired = {
            let dry = old(self).dry();
            let wet = old(self).wet();
            dry.obeys_prophetic_iter_laws() && wet.obeys_prophetic_iter_laws() && dry.remaining()
                == wet.remaining()
        };
        let ghost pending = old(self).dry().remaining();
        let ghost goal = reach(pending.len(), count);
        let ghost start = old(self).previous();
        let ghost mut lows: Seq<i32> = Seq::empty();
        proof {
            assert(pending.skip(0) == pending);
        }
        while pulled < count
            invariant
                pulled <= count,
                output.len() == pulled,
                lows.len() == pulled,
                self.width() == old(self).width(),
                self.average() == old(self).average(),
                goal == reach(pending.len(), count),
                paired ==> {
                    &&& self.dry().obeys_prophetic_iter_laws()
                    &&& self.wet().obeys_prophetic_iter_laws()
                    &&& pulled <= goal
                    &&& self.dry().remaining() == pending.skip(pulled as int)
                    &&& self.wet().remaining() == pending.skip(pulled as int)
                    &&& sharpens_with(
                        self.average(),
                        pending.take(pulled as int),
                        start,
                        self.width(),
                        lows,
                        output@,
                    )
                    &&& self.previous() == settled(lows, start)
                },
            ensures
                output.len() == pulled,
                self.width() == old(self).width(),
                self.average() == old(self).average(),
                paired ==> {
                    &&& self.dry().obeys_prophetic_iter_laws()
                    &&& self.wet().obeys_prophetic_iter_laws()
                    &&& pulled == goal
                    &&& self.dry().remaining() == pending.skip(goal)
                    &&& self.wet().remaining() == pending.skip(goal)
                    &&& sharpens_with(
                        self.average(),
                        pending.take(goal),
                        start,
                        self.width(),
                        lows,
                        output@,
                    )
                    &&& self.previous() == settled(lows, start)
                },
            decreases count - pulled,
        {
            let ghost before = output@;
            let ghost lows_before = lows;
            match self.next() {
                Some(sample) => {
                    output.push(sample);
                    proof {
                        lows = lows.push(self.previous());
                        assert(paired ==> pending.skip(pulled as int).drop_first() == pending.skip(
                            pulled + 1,
                        ));
                        assert forall|i: int| 0 <= i < pulled implies output@[i] == before[i]
                            && lows[i] == lows_before[i] && state_before(lows, start, i)
                            == state_before(lows_before, start, i) by {}
                    }
                    pulled = pulled + 1;
                },
                None => {
                    break ;
                },
            }
        }
        output
    }
}

impl<T: Iterator<Item = i32>, A: Fn(i32, i32, i32) -> i32> SignalFilter<T, A> for HiPassFilter<
    T,
    A,
> {
    closed spec fn width(&self) -> i32 {
        self.lo_pass.width()
    }

    closed spec fn previous(&self) -> i32 {
        self.lo_pass.previous()
    }

    closed spec fn average(&self) -> A {
        self.lo_pass.average()
    }

    fn new(input: T, width: i32, average: A) -> (filter: Result<Self, PipelineError>)
        ensures
            filter matches Ok(made) ==> {
                &&& input.obeys_prophetic_iter_laws() ==> {
                    &&& made.dry().obeys_prophetic_iter_laws()
                    &&& made.wet().obeys_prophetic_iter_laws()
                    &&& made.dry().remaining() == input.remaining()
                    &&& made.wet().remaining() == input.remaining()
                }
            },
    {
        let (one, two) = duplicate(input);
        match LoPassFilter::new(one, width, average) {
            Ok(lo_pass) => Ok(Self { lo_pass, dry: two }),
            Err(refusal) => Err(refusal),
        }
    }

    fn next(&mut self) -> (sample: Option<i32>)
        ensures
            ({
                let dry = old(self).dry();
                let wet = old(self).wet();
                dry.obeys_prophetic_iter_laws() && wet.obeys_prophetic_iter_laws() ==> {
                    &&& final(self).dry().obeys_prophetic_iter_laws()
                    &&& final(self).wet().obeys_prophetic_iter_laws()
                    &&& if dry.remaining().len() == 0 {
                        &&& sample is None
                        &&& final(self).dry().remaining() == dry.remaining()
                        &&& final(self).wet().remaining() == wet.remaining()
                    } else if wet.remaining().len() == 0 {
                        &&& sample is None
                        &&& final(self).dry().remaining() == dry.remaining().drop_first()
                        &&& final(self).wet().remaining() == wet.remaining()
                    } else {
                        &&& old(self).average().ensures(
                            (wet.remaining()[0], old(self).previous(), old(self).width()),
                            final(self).previous(),
                        )
                        &&& sample == Some(
                            clipped_difference(dry.remaining()[0], final(self).previous()),
                        )
                        &&& final(self).dry().remaining() == dry.remaining().drop_first()
                        &&& final(self).wet().remaining() == wet.remaining().drop_first()
                    }
                }
            }),
    {
        let dry = match pull(&mut self.dry) {
            Some(sample) => sample,
            None => {
                return None;
            },
        };
        let low = match self.lo_pass.next() {
            Some(sample) => sample,
            None => {
                return None;
            },
        };
        Some(clip(dry, low))
    }
}

/// Runs the high-pass filter over a whole buffer, from the state zero.
pub fn high_pass<A: Fn(i32, i32, i32) -> i32>(samples: Vec<i32>, width: i32, average: A) -> (filtered:
    Result<Vec<i32>, PipelineError>)
    requires
        width > 0 ==> total_at(average, width),
    ensures
        width > 0 <==> filtered is Ok,
        width <= 0 ==> filtered matches Err(PipelineError::Config),
        filtered matches Ok(output) ==> {
            &&& sharpens(average, samples@, 0, width, output@)
            &&& output.len() == samples.len()
        },
{
    let count = samples.len();
    let ghost pending = samples@;
    let mut filter = match HiPassFilter::new(samples.into_iter(), width, average) {
        Ok(made) => made,
        Err(refusal) => {
            return Err(refusal);
        },
    };
    let output = filter.take(count);
    proof {
        assert(pending.take(pending.len() as int) == pending);
    }
    Ok(output)
}

/// Low-pass and high-pass output add up to the sample, at every index at
/// which the difference between the sample and the low-pass output is an
/// `i32`; within the 24-bit domain it always is.
pub proof fn lemma_reconstruction_with<A: Fn(i32, i32, i32) -> i32>(
    average: A,
    samples: Seq<i32>,
    previous: i32,
    width: i32,
    lows: Seq<i32>,
    highs: Seq<i32>,
    i: int,
)
    requires
        sharpens_with(average, samples, previous, width, lows, highs),
        0 <= i < samples.len(),
    ensures
        i32::MIN <= samples[i] - lows[i] <= i32::MAX ==> lows[i] + highs[i] == samples[i],
        in_domain(samples[i] as int) && in_domain(lows[i] as int) ==> lows[i] + highs[i]
            == samples[i],
{
}

/// With an averager that has one result only, the outputs of a low-pass and
/// of a high-pass filter over the same buffer add up to the sample, at every
/// index at which the difference between the sample and the low-pass output
/// is an `i32`; within the 24-bit domain it always is.
pub proof fn lemma_reconstruction<A: Fn(i32, i32, i32) -> i32>(
    average: A,
    samples: Seq<i32>,
    previous: i32,
    width: i32,
    lows: Seq<i32>,
    highs: Seq<i32>,
    i: int,
)
    requires
        single_valued(average),
        smooths(average, samples, previous, width, lows),
        sharpens(average, samples, previous, width, highs),
        0 <= i < samples.len(),
    ensures
        i32::MIN <= samples[i] - lows[i] <= i32::MAX ==> lows[i] + highs[i] == samples[i],
        in_domain(samples[i] as int) && in_domain(lows[i] as int) ==> lows[i] + highs[i]
            == samples[i],
{
    let within = choose|within: Seq<i32>|
        #[trigger] sharpens_with(average, samples, previous, width, within, highs);
    lemma_smooths_unique(average, samples, previous, width, lows, within);
    lemma_reconstruction_with(average, samples, previous, width, lows, highs, i);
}

} // verus!

//! Duplication of a sample stream into two streams that are pulled
//! independently of each other.

use vstd::prelude::*;
use vstd::std_specs::iter::IteratorSpec;
use itertools::Itertools;
use itertools::Tee;

verus! {

/// `itertools::Tee`, one half of a duplicated iterator. The two halves share
/// the source and a backlog of the items that only one of them has pulled;
/// nothing of that is visible to the verifier.
#[verifier::external_type_specification]
#[verifier::external_body]
#[verifier::reject_recursive_types(I)]
pub struct ExTee<I: Iterator>(Tee<I>);

/// `Itertools::tee` on a stream of samples. Not proved: that, where the
/// source keeps the iterator laws, each half keeps them too and yields all
/// that the source held, in the same order. A half that is ahead pulls from
/// the source and leaves a copy of the item in the backlog; the half that is
/// behind takes from the backlog first.
#[verifier::external_body]
fn tee_halves<T: Iterator<Item = i32>>(input: T) -> (halves: (Tee<T>, Tee<T>))
    ensures
        input.obeys_prophetic_iter_laws() ==> {
            &&& halves.0.obeys_prophetic_iter_laws()
            &&& halves.1.obeys_prophetic_iter_laws()
            &&& halves.0.remaining() == input.remaining()
            &&& halves.1.remaining() == input.remaining()
        },
{
    input.tee()
}

/// Splits `input` into two streams. Each yields every sample of `input`
/// once, in order, however the pulls on the two are interleaved: what one
/// half has left changes only when that half is pulled.
pub fn duplicate<T: Iterator<Item = i32>>(input: T) -> (halves: (Tee<T>, Tee<T>))
    ensures
        input.obeys_prophetic_iter_laws() ==> {
            &&& halves.0.obeys_prophetic_iter_laws()
            &&& halves.1.obeys_prophetic_iter_laws()
            &&& halves.0.remaining() == input.remaining()
            &&& halves.1.remaining() == input.remaining()
        },
{
    tee_halves(input)
}

/// Pulls one sample from `stream`: the first of those that it has left, or
/// `None` once it has none.
pub fn pull<S: Iterator<Item = i32>>(stream: &mut S) -> (sample: Option<i32>)
    ensures
        (*old(stream)).obeys_prophetic_iter_laws() ==> {
            let pending = (*old(stream)).remaining();
            &&& (*final(stream)).obeys_prophetic_iter_laws()
            &&& if pending.len() > 0 {
                &&& sample == Some(pending[0])
                &&& (*final(stream)).remaining() == pending.drop_first()
            } else {
                &&& sample is None
                &&& (*final(stream)).remaining() == pending
            }
        },
{
    stream.next()
}

/// Pulls one sample from `half`, if it has one left, and puts it at the end
/// of `taken`: what is taken and what is left make up the same sequence
/// after as before.
fn pull_onto<S: Iterator<Item = i32>>(half: &mut S, taken: &mut Vec<i32>)
    requires
        (*old(half)).obeys_prophetic_iter_laws(),
    ensures
        (*final(half)).obeys_prophetic_iter_laws(),
        final(taken)@ + (*final(half)).remaining() == old(taken)@ + (*old(half)).remaining(),
        final(taken).len() == old(taken).len() + if (*old(half)).remaining().len() > 0 {
            1int
        } else {
            0int
        },
{
    let ghost pending = (*old(half)).remaining();
    match pull(half) {
        Some(sample) => {
            taken.push(sample);
            assert(old(taken)@.push(sample) + pending.drop_first() =~= old(taken)@ + pending);
        },
        None => {},
    }
}

/// Duplicates `samples` and pulls both copies dry. The pulls take turns as
/// `turns` says, `true` for a pull on the first copy and `false` for one on
/// the second; after the last turn what the first copy has left is pulled,
/// then what the second has left. Whatever the turns, each copy hands out
/// `samples`.
pub fn duplicate_in_turns(samples: Vec<i32>, turns: &Vec<bool>) -> (copies: (Vec<i32>, Vec<i32>))
    ensures
        copies.0@ == samples@,
        copies.1@ == samples@,
{
    let len = samples.len();
    let ghost whole = samples@;
    let (mut one, mut two) = duplicate(samples.into_iter());
    let mut from_one: Vec<i32> = Vec::new();
    let mut from_two: Vec<i32> = Vec::new();
    proof {
        assert(from_one@ + whole =~= whole);
    }
    let mut turn: usize = 0;
    while turn < turns.len()
        invariant
            turn <= turns.len(),
            one.obeys_prophetic_iter_laws(),
            two.obeys_prophetic_iter_laws(),
            from_one@ + one.remaining() == whole,
            from_two@ + two.remaining() == whole,
        decreases turns.len() - turn,
    {
        if turns[turn] {
            pull_onto(&mut one, &mut from_one);
        } else {
            pull_onto(&mut two, &mut from_two);
        }
        turn = turn + 1;
    }
    while from_one.len() < len
        invariant
            len == whole.len(),
            one.obeys_prophetic_iter_laws(),
            from_one@ + one.remaining() == whole,
        decreases len - from_one.len(),
    {
        assert((from_one@ + one.remaining()).len() == len);
        pull_onto(&mut one, &mut from_one);
    }
    while from_two.len() < len
        invariant
            len == whole.len(),
            two.obeys_prophetic_iter_laws(),
            from_two@ + two.remaining() == whole,
        decreases len - from_two.len(),
    {
        assert((from_two@ + two.remaining()).len() == len);
        pull_onto(&mut two, &mut from_two);
    }
    proof {
        assert((from_one@ + one.remaining()).len() == len);
        assert((from_two@ + two.remaining()).len() == len);
        assert(from_one@ =~= whole);
        assert(from_two@ =~= whole);
    }
    (from_one, from_two)
}

} // verus!

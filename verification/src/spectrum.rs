//! The integer side of the sliding-window spectral analyzer: which windows a
//! buffer is cut into, and the order in which the bins of a transform are
//! handed out.
//!
//! The windows of a buffer are attached to the time indices `step`,
//! `2 * step`, `3 * step` and so on below the length of the buffer, where
//! `step` is half the window size. The window at index `i` holds the
//! `window` samples before `i`, or all the samples before `i` where there are
//! fewer: a window near the start of the buffer is shorter and is not padded.
//! The index zero has no sample before it and gets no window.

use vstd::prelude::*;
use vstd::arithmetic::div_mod::{
    lemma_fundamental_div_mod, lemma_fundamental_div_mod_converse, lemma_mod_bound,
};
use crate::error::PipelineError;

verus! {

/// Where a transform is cut for the shift: half its length, rounded up.
pub open spec fn pivot(len: int) -> int {
    (len + 1) / 2
}

/// The bins of a transform with the zero frequency moved toward the middle:
/// those from the pivot on, followed by those before it.
pub open spec fn shifted<T>(values: Seq<T>) -> Seq<T> {
    values.skip(pivot(values.len() as int)) + values.take(pivot(values.len() as int))
}

/// Reorders the bins of a transform so that the zero frequency comes after
/// the negative ones.
pub fn fft_shift<T: Clone>(values: Vec<T>) -> (centered: Vec<T>)
    ensures
        centered@ == shifted(values@),
{
    let mut left = values;
    let len = left.len();
    let mid = len / 2 + len % 2;
    let mut centered = left.split_off(mid);
    centered.append(&mut left);
    proof {
        assert(values@.subrange(0, mid as int) == values@.take(mid as int));
        assert(values@.subrange(mid as int, len as int) == values@.skip(mid as int));
    }
    centered
}

/// The shift keeps the length, and puts at place `k` the bin that stood
/// `pivot` places further on, counted round the end.
pub proof fn lemma_shifted_index<T>(values: Seq<T>, k: int)
    requires
        0 <= k < values.len(),
    ensures
        shifted(values).len() == values.len(),
        shifted(values)[k] == values[(k + pivot(values.len() as int)) % (values.len() as int)],
{
    let len = values.len() as int;
    let mid = pivot(len);
    if k < len - mid {
        lemma_fundamental_div_mod_converse(k + mid, len, 0, k + mid);
    } else {
        lemma_fundamental_div_mod_converse(k + mid, len, 1, k + mid - len);
    }
}

/// One window of a buffer: the samples from `start` up to, and without,
/// `index`, the time index that the window is attached to.
#[derive(Debug, Clone, Copy, PartialEq, Eq, Structural)]
pub struct Window {
    pub index: usize,
    pub start: usize,
}

impl Window {
    /// The number of samples in the window, which is the length of its
    /// transform.
    pub open spec fn len(&self) -> int {
        self.index - self.start
    }
}

/// The distance between the time indices of two windows that follow each
/// other: half the window size.
pub open spec fn step_of(window: int) -> int {
    window / 2
}

/// The number of windows of a buffer of `length` samples: one for each
/// multiple of the step from the step itself up to the last index.
pub open spec fn window_count(length: int, window: int) -> int {
    (length - 1) / step_of(window)
}

/// Window number `k` of a buffer, counted from zero.
pub open spec fn window_at(k: int, window: int) -> Window {
    let index = (k + 1) * step_of(window);
    Window {
        index: index as usize,
        start: if index > window {
            (index - window) as usize
        } else {
            0
        },
    }
}

/// All the windows of a buffer, in the order of their time indices.
pub open spec fn windows_of(length: int, window: int) -> Seq<Window> {
    Seq::new(window_count(length, window) as nat, |k: int| window_at(k, window))
}

/// Every window ends within the buffer, holds at least a step of samples and
/// at most a whole window, and is short only where it starts with the
/// buffer.
pub proof fn lemma_window_bounds(length: int, window: int, k: int)
    requires
        window >= 2,
        0 <= k < window_count(length, window),
        0 < length <= usize::MAX,
    ensures
        window_at(k, window).index == (k + 1) * step_of(window),
        window_at(k, window).start <= window_at(k, window).index < length,
        step_of(window) <= window_at(k, window).len() <= window,
        window_at(k, window).len() == window || window_at(k, window).start == 0,
{
    let step = step_of(window);
    let count = window_count(length, window);
    lemma_fundamental_div_mod(length - 1, step);
    lemma_mod_bound(length - 1, step);
    assert(step <= (k + 1) * step <= count * step) by (nonlinear_arith)
        requires
            0 <= k < count,
            step >= 1,
    ;
    assert(count * step == step * count) by (nonlinear_arith);
}

/// The number of windows is the number of time indices that the step
/// reaches within the buffer, `length / step` rounded up, less the one at
/// zero.
pub proof fn lemma_window_count(length: int, window: int)
    requires
        window >= 2,
        length > 0,
    ensures
        window_count(length, window) == (length + step_of(window) - 1) / step_of(window) - 1,
        window_count(length, window) >= 0,
{
    let step = step_of(window);
    let count = window_count(length, window);
    lemma_fundamental_div_mod(length - 1, step);
    lemma_mod_bound(length - 1, step);
    assert(length + step - 1 == (count + 1) * step + (length - 1) % step) by (nonlinear_arith)
        requires
            length - 1 == step * count + (length - 1) % step,
    ;
    lemma_fundamental_div_mod_converse(length + step - 1, step, count + 1, (length - 1) % step);
    assert(count >= 0) by (nonlinear_arith)
        requires
            length - 1 == step * count + (length - 1) % step,
            length - 1 >= 0,
            0 <= (length - 1) % step < step,
    ;
}

/// Cuts a buffer of `length` samples into the windows of the analyzer. A
/// window size below two has no step and is refused; so is an empty buffer.
pub fn plan_windows(length: usize, window: usize) -> (plan: Result<Vec<Window>, PipelineError>)
    ensures
        window >= 2 && length > 0 <==> plan is Ok,
        window < 2 ==> plan matches Err(PipelineError::Config),
        window >= 2 && length == 0 ==> plan matches Err(PipelineError::EmptyInput),
        plan matches Ok(windows) ==> windows@ == windows_of(length as int, window as int),
{
    if window < 2 {
        return Err(PipelineError::Config);
    }
    if length == 0 {
        return Err(PipelineError::EmptyInput);
    }
    let step = window / 2;
    let last = length - 1;
    let count = last / step;
    let mut windows: Vec<Window> = Vec::new();
    let mut k: usize = 0;
    let mut index: usize = 0;
    proof {
        lemma_window_count(length as int, window as int);
    }
    while k < count
        invariant
            window >= 2,
            length > 0,
            step == step_of(window as int),
            count == window_count(length as int, window as int),
            k <= count,
            index == k * step,
            windows.len() == k,
            forall|i: int| 0 <= i < k ==> #[trigger] windows[i] == window_at(i, window as int),
        decreases count - k,
    {
        proof {
            lemma_window_bounds(length as int, window as int, k as int);
            assert((k + 1) * step == k * step + step) by (nonlinear_arith);
        }
        index = index + step;
        let start = if index > window {
            index - window
        } else {
            0
        };
        windows.push(Window { index, start });
        k = k + 1;
    }
    assert(windows@ =~= windows_of(length as int, window as int));
    Ok(windows)
}

} // verus!

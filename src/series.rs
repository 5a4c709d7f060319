//! Generic combinators over ordered series: sliding windows, forward
//! recurrences, consecutive pairs, and the trailing alignment of two series.
//! The value arithmetic is the caller's closure; these functions fix which
//! inputs reach it and where each result lands.

use vstd::prelude::*;
use vstd::slice::slice_subrange;
use crate::layout::{IndicatorError, windows_fit, num_windows, window_count};

verus! {

/// `u` is a value that `f` returns on a slice holding exactly `window`.
pub open spec fn window_result<T, U, F: Fn(&[T]) -> U>(f: F, window: Seq<T>, u: U) -> bool {
    exists|w: &[T]| w@ == window && #[trigger] f.ensures((w,), u)
}

/// The window of `period` values that starts at index `i`.
pub open spec fn window_at<T>(s: Seq<T>, i: int, period: int) -> Seq<T> {
    s.subrange(i, i + period)
}

/// Applies `f` to every window of `period` consecutive values, oldest first.
pub fn window_map<T, U, F: Fn(&[T]) -> U>(series: &[T], period: usize, f: F) -> (r: Result<
    Vec<U>,
    IndicatorError,
>)
    requires
        forall|w: &[T]| f.requires((w,)),
    ensures
        r is Ok <==> windows_fit(series@.len() as int, period as int),
        r matches Err(e) ==> e == IndicatorError::InsufficientData,
        r matches Ok(v) ==> {
            &&& v@.len() == num_windows(series@.len() as int, period as int)
            &&& forall|i: int|
                0 <= i < v@.len() ==> window_result(
                    f,
                    window_at(series@, i, period as int),
                    #[trigger] v@[i],
                )
        },
{
    let len = series.len();
    let n = match window_count(len, period) {
        Ok(n) => n,
        Err(e) => return Err(e),
    };
    let mut out: Vec<U> = Vec::new();
    let mut i: usize = 0;
    while i < n
        invariant
            len == series@.len(),
            n == series@.len() - period + 1,
            period >= 1,
            i <= n,
            out@.len() == i,
            forall|w: &[T]| f.requires((w,)),
            forall|j: int|
                0 <= j < i ==> window_result(f, window_at(series@, j, period as int), #[trigger] out@[j]),
        decreases n - i,
    {
        let w = slice_subrange(series, i, i + period);
        let u = f(w);
        assert(window_result(f, window_at(series@, i as int, period as int), u)) by {
            assert(w@ == window_at(series@, i as int, period as int));
        }
        out.push(u);
        i = i + 1;
    }
    Ok(out)
}

/// Runs `step` forward from `seed` over `inputs[start..]`: the first element
/// is `seed`, and each later one is `step` applied to `period`, to its
/// predecessor and to the next input.
pub fn smooth_forward<S: Copy, T: Copy, F: Fn(usize, S, T) -> S>(
    seed: S,
    inputs: &[T],
    start: usize,
    period: usize,
    step: F,
) -> (r: Vec<S>)
    requires
        start <= inputs@.len(),
        forall|s: S, t: T| step.requires((period, s, t)),
    ensures
        r@.len() == inputs@.len() - start + 1,
        r@[0] == seed,
        forall|i: int|
            1 <= i < r@.len() ==> step.ensures(
                (period, r@[i - 1], inputs@[start + i - 1]),
                #[trigger] r@[i],
            ),
{
    let len = inputs.len();
    let mut out: Vec<S> = Vec::new();
    out.push(seed);
    let mut prev = seed;
    let mut k: usize = start;
    while k < len
        invariant
            len == inputs@.len(),
            start <= k <= len,
            out@.len() == k - start + 1,
            out@[0] == seed,
            prev == out@[k - start],
            forall|s: S, t: T| step.requires((period, s, t)),
            forall|i: int|
                1 <= i < out@.len() ==> step.ensures(
                    (period, out@[i - 1], inputs@[start + i - 1]),
                    #[trigger] out@[i],
                ),
        decreases len - k,
    {
        let next = step(period, prev, inputs[k]);
        out.push(next);
        prev = next;
        k = k + 1;
    }
    out
}

/// Applies `f` to each pair of consecutive values, oldest first.
pub fn pairwise_map<T: Copy, U, F: Fn(T, T) -> U>(series: &[T], f: F) -> (r: Vec<U>)
    requires
        forall|a: T, b: T| f.requires((a, b)),
    ensures
        r@.len() == if series@.len() == 0 { 0 } else { series@.len() - 1 },
        forall|i: int| 0 <= i < r@.len() ==> f.ensures((series@[i], series@[i + 1]), #[trigger] r@[i]),
{
    let len = series.len();
    let mut out: Vec<U> = Vec::new();
    let mut i: usize = 1;
    while i < len
        invariant
            len == series@.len(),
            1 <= i,
            i <= len || (len == 0 && i == 1),
            out@.len() == i - 1,
            forall|a: T, b: T| f.requires((a, b)),
            forall|j: int|
                0 <= j < out@.len() ==> f.ensures((series@[j], series@[j + 1]), #[trigger] out@[j]),
        decreases len - i,
    {
        let u = f(series[i - 1], series[i]);
        out.push(u);
        i = i + 1;
    }
    out
}

/// Applies `f` to each value, keeping the order.
pub fn map_each<T: Copy, U, F: Fn(T) -> U>(series: &[T], f: F) -> (r: Vec<U>)
    requires
        forall|a: T| f.requires((a,)),
    ensures
        r@.len() == series@.len(),
        forall|i: int| 0 <= i < r@.len() ==> f.ensures((series@[i],), #[trigger] r@[i]),
{
    let len = series.len();
    let mut out: Vec<U> = Vec::new();
    let mut i: usize = 0;
    while i < len
        invariant
            len == series@.len(),
            i <= len,
            out@.len() == i,
            forall|a: T| f.requires((a,)),
            forall|j: int| 0 <= j < out@.len() ==> f.ensures((series@[j],), #[trigger] out@[j]),
        decreases len - i,
    {
        let u = f(series[i]);
        out.push(u);
        i = i + 1;
    }
    out
}

/// The length two series share once both are aligned on their last element.
pub open spec fn shared_len(a: int, b: int) -> int {
    if a <= b { a } else { b }
}

/// Aligns two series on their trailing end, dropping the leading elements of
/// the longer one, and combines the values that now stand at the same index.
pub fn align_combine<A: Copy, B: Copy, U, F: Fn(A, B) -> U>(a: &[A], b: &[B], f: F) -> (r: Vec<U>)
    requires
        forall|x: A, y: B| f.requires((x, y)),
    ensures
        r@.len() == shared_len(a@.len() as int, b@.len() as int),
        forall|i: int|
            0 <= i < r@.len() ==> f.ensures(
                (a@[a@.len() - r@.len() + i], b@[b@.len() - r@.len() + i]),
                #[trigger] r@[i],
            ),
{
    let alen = a.len();
    let blen = b.len();
    let m: usize = if alen <= blen { alen } else { blen };
    let a_skip: usize = alen - m;
    let b_skip: usize = blen - m;
    let mut out: Vec<U> = Vec::new();
    let mut i: usize = 0;
    while i < m
        invariant
            alen == a@.len(),
            blen == b@.len(),
            m == shared_len(a@.len() as int, b@.len() as int),
            a_skip == a@.len() - m,
            b_skip == b@.len() - m,
            i <= m,
            out@.len() == i,
            forall|x: A, y: B| f.requires((x, y)),
            forall|j: int|
                0 <= j < out@.len() ==> f.ensures(
                    (a@[a_skip + j], b@[b_skip + j]),
                    #[trigger] out@[j],
                ),
        decreases m - i,
    {
        let u = f(a[a_skip + i], b[b_skip + i]);
        out.push(u);
        i = i + 1;
    }
    out
}

} // verus!

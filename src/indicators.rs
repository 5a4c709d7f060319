//! The indicators, composed from the series combinators. Each is generic in
//! the value type: the caller supplies the arithmetic (a window mean, an
//! exponential smoothing step, a difference), and the contracts say which
//! inputs every output element is computed from.

use vstd::prelude::*;
use vstd::slice::slice_subrange;
use crate::layout::{
    IndicatorError, windows_fit, num_windows, window_count, macd_fits, lead_period, macd_layout,
    rsi_fits, rsi_len, rsi_count,
};
use crate::series::{
    window_map, window_result, window_at, smooth_forward, align_combine, shared_len, pairwise_map, map_each,
};

verus! {

/// `v` holds `mean` of every window of `period` values of `series`, in order.
pub open spec fn is_sma<T, F: Fn(&[T]) -> T>(series: Seq<T>, period: usize, mean: F, v: Seq<T>) -> bool {
    &&& v.len() == num_windows(series.len() as int, period as int)
    &&& forall|i: int|
        0 <= i < v.len() ==> window_result(mean, window_at(series, i, period as int), #[trigger] v[i])
}

/// Simple moving average: `mean` of each window of `period` values.
pub fn sma<T, F: Fn(&[T]) -> T>(series: &[T], period: usize, mean: F) -> (r: Result<
    Vec<T>,
    IndicatorError,
>)
    requires
        forall|w: &[T]| mean.requires((w,)),
    ensures
        r is Ok <==> windows_fit(series@.len() as int, period as int),
        r matches Err(e) ==> e == IndicatorError::InsufficientData,
        r matches Ok(v) ==> is_sma(series@, period, mean, v@),
{
    window_map(series, period, mean)
}

/// The three Bollinger lines, aligned as the SMA is.
pub struct BollingerResult<T> {
    /// Mean of each window.
    pub middle: Vec<T>,
    /// Mean plus the chosen multiple of the window's standard deviation.
    pub upper_bound: Vec<T>,
    /// Mean minus the chosen multiple of the window's standard deviation.
    pub lower_bound: Vec<T>,
}

/// Bollinger bands: `bands` gives the middle, upper and lower value of one
/// window, and the three lines hold them for every window in order.
pub fn bollinger_bands<T: Copy, B: Fn(&[T]) -> (T, T, T)>(
    series: &[T],
    period: usize,
    bands: B,
) -> (r: Result<BollingerResult<T>, IndicatorError>)
    requires
        forall|w: &[T]| bands.requires((w,)),
    ensures
        r is Ok <==> windows_fit(series@.len() as int, period as int),
        r matches Err(e) ==> e == IndicatorError::InsufficientData,
        r matches Ok(b) ==> {
            &&& b.middle@.len() == num_windows(series@.len() as int, period as int)
            &&& b.upper_bound@.len() == b.middle@.len()
            &&& b.lower_bound@.len() == b.middle@.len()
            &&& forall|i: int|
                0 <= i < b.middle@.len() ==> window_result(
                    bands,
                    window_at(series@, i, period as int),
                    (#[trigger] b.middle@[i], b.upper_bound@[i], b.lower_bound@[i]),
                )
        },
{
    let all = match window_map(series, period, bands) {
        Ok(v) => v,
        Err(e) => return Err(e),
    };
    let mut middle: Vec<T> = Vec::new();
    let mut upper_bound: Vec<T> = Vec::new();
    let mut lower_bound: Vec<T> = Vec::new();
    let mut i: usize = 0;
    while i < all.len()
        invariant
            i <= all@.len(),
            middle@.len() == i,
            upper_bound@.len() == i,
            lower_bound@.len() == i,
            forall|j: int|
                0 <= j < i ==> all@[j] == (#[trigger] middle@[j], upper_bound@[j], lower_bound@[j]),
        decreases all@.len() - i,
    {
        let (m, u, l) = all[i];
        middle.push(m);
        upper_bound.push(u);
        lower_bound.push(l);
        i = i + 1;
    }
    Ok(BollingerResult { middle, upper_bound, lower_bound })
}

/// `f` gives one value on slices with equal contents.
pub open spec fn same_on_equal_windows<T, U, F: Fn(&[T]) -> U>(f: F) -> bool {
    forall|w1: &[T], w2: &[T], u1: U, u2: U|
        w1@ == w2@ && #[trigger] f.ensures((w1,), u1) && #[trigger] f.ensures((w2,), u2) ==> u1
            == u2
}

/// Every element of `series` is `c`.
pub open spec fn constant_series<T>(series: Seq<T>, c: T) -> bool {
    forall|i: int| 0 <= i < series.len() ==> #[trigger] series[i] == c
}

/// The seed of the EMA is the first SMA value, when both use one window
/// mean that gives one result on equal windows.
pub proof fn lemma_ema_seed_is_sma<T, F: Fn(&[T]) -> T, G: Fn(usize, T, T) -> T>(
    series: Seq<T>,
    period: usize,
    mean: F,
    step: G,
    sma_values: Seq<T>,
    ema_values: Seq<T>,
)
    requires
        windows_fit(series.len() as int, period as int),
        same_on_equal_windows(mean),
        is_sma(series, period, mean, sma_values),
        is_ema(series, period, mean, step, ema_values),
    ensures
        ema_values[0] == sma_values[0],
{
    let win = window_at(series, 0, period as int);
    assert(window_result(mean, win, sma_values[0]));
    let w1 = choose|w: &[T]| w@ == win && #[trigger] mean.ensures((w,), sma_values[0]);
    let w2 = choose|w: &[T]| w@ == win && #[trigger] mean.ensures((w,), ema_values[0]);
}

/// On a series that holds `c` alone, every SMA value is `c`, provided the
/// window mean gives `c` on any window of `c` alone.
pub proof fn lemma_constant_sma<T, F: Fn(&[T]) -> T>(
    series: Seq<T>,
    period: usize,
    mean: F,
    c: T,
    sma_values: Seq<T>,
)
    requires
        windows_fit(series.len() as int, period as int),
        constant_series(series, c),
        forall|w: &[T], u: T| constant_series(w@, c) && #[trigger] mean.ensures((w,), u) ==> u == c,
        is_sma(series, period, mean, sma_values),
    ensures
        forall|i: int| 0 <= i < sma_values.len() ==> #[trigger] sma_values[i] == c,
{
    assert forall|i: int| 0 <= i < sma_values.len() implies #[trigger] sma_values[i] == c by {
        let win = window_at(series, i, period as int);
        assert(window_result(mean, win, sma_values[i]));
        let w = choose|w: &[T]| w@ == win && #[trigger] mean.ensures((w,), sma_values[i]);
        assert(constant_series(w@, c));
    }
}

proof fn lemma_constant_ema_at<T, F: Fn(&[T]) -> T, G: Fn(usize, T, T) -> T>(
    series: Seq<T>,
    period: usize,
    mean: F,
    step: G,
    c: T,
    ema_values: Seq<T>,
    k: int,
)
    requires
        0 <= k < ema_values.len(),
        ema_values[0] == c,
        constant_series(series, c),
        forall|u: T| #[trigger] step.ensures((period, c, c), u) ==> u == c,
        is_ema(series, period, mean, step, ema_values),
    ensures
        ema_values[k] == c,
    decreases k,
{
    if k > 0 {
        lemma_constant_ema_at(series, period, mean, step, c, ema_values, k - 1);
        assert(step.ensures((period, ema_values[k - 1], series[period + k - 1]), ema_values[k]));
    }
}

/// On a series that holds `c` alone, every EMA value is `c`, provided the
/// window mean gives `c` on any window of `c` alone and a step from `c`
/// towards `c` stays at `c`.
pub proof fn lemma_constant_ema<T, F: Fn(&[T]) -> T, G: Fn(usize, T, T) -> T>(
    series: Seq<T>,
    period: usize,
    mean: F,
    step: G,
    c: T,
    ema_values: Seq<T>,
)
    requires
        windows_fit(series.len() as int, period as int),
        constant_series(series, c),
        forall|w: &[T], u: T| constant_series(w@, c) && #[trigger] mean.ensures((w,), u) ==> u == c,
        forall|u: T| #[trigger] step.ensures((period, c, c), u) ==> u == c,
        is_ema(series, period, mean, step, ema_values),
    ensures
        forall|i: int| 0 <= i < ema_values.len() ==> #[trigger] ema_values[i] == c,
{
    let win = window_at(series, 0, period as int);
    let w = choose|w: &[T]| w@ == win && #[trigger] mean.ensures((w,), ema_values[0]);
    assert(constant_series(w@, c));
    assert forall|i: int| 0 <= i < ema_values.len() implies #[trigger] ema_values[i] == c by {
        lemma_constant_ema_at(series, period, mean, step, c, ema_values, i);
    }
}

/// `v` is an exponential moving average of `series` over `period`: it starts
/// with `mean` of the first window and walks forward one value at a time
/// with `step`.
pub open spec fn is_ema<T, F: Fn(&[T]) -> T, G: Fn(usize, T, T) -> T>(
    series: Seq<T>,
    period: usize,
    mean: F,
    step: G,
    v: Seq<T>,
) -> bool {
    &&& v.len() == num_windows(series.len() as int, period as int)
    &&& window_result(mean, window_at(series, 0, period as int), v[0])
    &&& forall|i: int|
        1 <= i < v.len() ==> step.ensures(
            (period, v[i - 1], series[period + i - 1]),
            #[trigger] v[i],
        )
}

/// Exponential moving average, seeded with `mean` of the first `period`
/// values; `step(period, previous, price)` gives each next value.
pub fn ema<T: Copy, F: Fn(&[T]) -> T, G: Fn(usize, T, T) -> T>(
    series: &[T],
    period: usize,
    mean: F,
    step: G,
) -> (r: Result<Vec<T>, IndicatorError>)
    requires
        forall|w: &[T]| mean.requires((w,)),
        forall|p: usize, a: T, b: T| step.requires((p, a, b)),
    ensures
        r is Ok <==> windows_fit(series@.len() as int, period as int),
        r matches Err(e) ==> e == IndicatorError::InsufficientData,
        r matches Ok(v) ==> is_ema(series@, period, mean, step, v@),
{
    let len = series.len();
    match window_count(len, period) {
        Ok(_) => {},
        Err(e) => return Err(e),
    }
    let first = slice_subrange(series, 0, period);
    let seed = mean(first);
    assert(window_result(mean, window_at(series@, 0, period as int), seed)) by {
        assert(first@ == window_at(series@, 0, period as int));
    }
    let v = smooth_forward(seed, series, period, period, step);
    Ok(v)
}

/// The two lines of a MACD.
pub struct MacdResult<T> {
    /// Fast EMA minus slow EMA, aligned on the slow EMA's first value.
    pub macd: Vec<T>,
    /// EMA of the MACD line over the signal period.
    pub signal: Vec<T>,
}

/// `line` is the difference, by `diff`, of the fast and the slow EMA once
/// both are aligned on their last element.
pub open spec fn is_macd_line<T, D: Fn(T, T) -> T>(
    fast_ema: Seq<T>,
    slow_ema: Seq<T>,
    diff: D,
    line: Seq<T>,
) -> bool {
    &&& line.len() == shared_len(fast_ema.len() as int, slow_ema.len() as int)
    &&& forall|i: int|
        0 <= i < line.len() ==> diff.ensures(
            (fast_ema[fast_ema.len() - line.len() + i], slow_ema[slow_ema.len() - line.len() + i]),
            #[trigger] line[i],
        )
}

/// Moving average convergence/divergence. The fast period is expected to be
/// the shorter one; when it is not, the line is still computed, with the
/// longer-period EMA trimmed instead.
pub fn macd<T: Copy, F: Fn(&[T]) -> T + Copy, G: Fn(usize, T, T) -> T + Copy, D: Fn(T, T) -> T>(
    series: &[T],
    fast_period: usize,
    slow_period: usize,
    signal_period: usize,
    mean: F,
    step: G,
    diff: D,
) -> (r: Result<MacdResult<T>, IndicatorError>)
    requires
        forall|w: &[T]| mean.requires((w,)),
        forall|p: usize, a: T, b: T| step.requires((p, a, b)),
        forall|a: T, b: T| diff.requires((a, b)),
    ensures
        r is Ok <==> macd_fits(
            series@.len() as int,
            fast_period as int,
            slow_period as int,
            signal_period as int,
        ),
        r matches Err(e) ==> e == IndicatorError::InsufficientData,
        r matches Ok(m) ==> {
            &&& m.macd@.len() == num_windows(
                series@.len() as int,
                lead_period(fast_period as int, slow_period as int),
            )
            &&& m.signal@.len() == num_windows(m.macd@.len() as int, signal_period as int)
            &&& exists|fast_ema: Seq<T>, slow_ema: Seq<T>|
                {
                    &&& is_ema(series@, fast_period, mean, step, fast_ema)
                    &&& is_ema(series@, slow_period, mean, step, slow_ema)
                    &&& #[trigger] is_macd_line(fast_ema, slow_ema, diff, m.macd@)
                }
            &&& is_ema(m.macd@, signal_period, mean, step, m.signal@)
        },
{
    let layout = match macd_layout(series.len(), fast_period, slow_period, signal_period) {
        Ok(l) => l,
        Err(e) => return Err(e),
    };
    let fast_ema = match ema(series, fast_period, mean, step) {
        Ok(v) => v,
        Err(e) => return Err(e),
    };
    let slow_ema = match ema(series, slow_period, mean, step) {
        Ok(v) => v,
        Err(e) => return Err(e),
    };
    let line = align_combine(fast_ema.as_slice(), slow_ema.as_slice(), diff);
    assert(is_macd_line(fast_ema@, slow_ema@, diff, line@));
    let signal = match ema(line.as_slice(), signal_period, mean, step) {
        Ok(v) => v,
        Err(e) => return Err(e),
    };
    Ok(MacdResult { macd: line, signal })
}

/// `out` is an RSI of `series`: `moves` holds what `change` makes of each
/// pair of consecutive prices, `averages` smooths those moves as an EMA does
/// (seeded by `average` over the first `period` moves, then rolled by
/// `smooth`), and each output is `index` of the averages at its position.
pub open spec fn is_rsi_trace<T, M, C, A, W, X>(
    series: Seq<T>,
    period: usize,
    change: C,
    average: A,
    smooth: W,
    index: X,
    moves: Seq<M>,
    averages: Seq<M>,
    out: Seq<T>,
) -> bool where
    C: Fn(T, T) -> M,
    A: Fn(&[M]) -> M,
    W: Fn(usize, M, M) -> M,
    X: Fn(M) -> T,
 {
    &&& moves.len() + 1 == series.len()
    &&& forall|i: int|
        0 <= i < moves.len() ==> change.ensures((series[i], series[i + 1]), #[trigger] moves[i])
    &&& is_ema(moves, period, average, smooth, averages)
    &&& out.len() == averages.len()
    &&& forall|i: int| 0 <= i < out.len() ==> index.ensures((averages[i],), #[trigger] out[i])
}

/// Relative strength index. `change` splits a price change into its gain
/// and loss, `average` seeds the mean gain and loss, `smooth` is the Wilder
/// update, and `index` turns mean gain and loss into the index value.
pub fn rsi<T: Copy, M: Copy, C, A, W, X>(
    series: &[T],
    period: usize,
    change: C,
    average: A,
    smooth: W,
    index: X,
) -> (r: Result<Vec<T>, IndicatorError>) where
    C: Fn(T, T) -> M,
    A: Fn(&[M]) -> M,
    W: Fn(usize, M, M) -> M,
    X: Fn(M) -> T,

    requires
        forall|a: T, b: T| change.requires((a, b)),
        forall|w: &[M]| average.requires((w,)),
        forall|p: usize, a: M, b: M| smooth.requires((p, a, b)),
        forall|a: M| index.requires((a,)),
    ensures
        r is Ok <==> rsi_fits(series@.len() as int, period as int),
        r matches Err(e) ==> e == IndicatorError::InsufficientData,
        r matches Ok(v) ==> {
            &&& v@.len() == rsi_len(series@.len() as int, period as int)
            &&& exists|moves: Seq<M>, averages: Seq<M>|
                #[trigger] is_rsi_trace(
                    series@,
                    period,
                    change,
                    average,
                    smooth,
                    index,
                    moves,
                    averages,
                    v@,
                )
        },
{
    match rsi_count(series.len(), period) {
        Ok(_) => {},
        Err(e) => return Err(e),
    }
    let moves = pairwise_map(series, change);
    let averages = match ema(moves.as_slice(), period, average, smooth) {
        Ok(v) => v,
        Err(e) => return Err(e),
    };
    let out = map_each(averages.as_slice(), index);
    assert(is_rsi_trace(series@, period, change, average, smooth, index, moves@, averages@, out@));
    Ok(out)
}

/// On a series that holds `c` alone, the middle line and both bounds are
/// `c` throughout, provided `bands` gives `c` for all three on any window of
/// `c` alone (a window whose deviation is zero).
pub proof fn lemma_constant_bollinger<T, B: Fn(&[T]) -> (T, T, T)>(
    series: Seq<T>,
    period: usize,
    bands: B,
    c: T,
    b: BollingerResult<T>,
)
    requires
        windows_fit(series.len() as int, period as int),
        constant_series(series, c),
        forall|w: &[T], u: (T, T, T)|
            constant_series(w@, c) && #[trigger] bands.ensures((w,), u) ==> u == (c, c, c),
        b.middle@.len() == num_windows(series.len() as int, period as int),
        b.upper_bound@.len() == b.middle@.len(),
        b.lower_bound@.len() == b.middle@.len(),
        forall|i: int|
            0 <= i < b.middle@.len() ==> window_result(
                bands,
                window_at(series, i, period as int),
                (#[trigger] b.middle@[i], b.upper_bound@[i], b.lower_bound@[i]),
            ),
    ensures
        forall|i: int|
            0 <= i < b.middle@.len() ==> (#[trigger] b.middle@[i], b.upper_bound@[i], b.lower_bound@[i])
                == (c, c, c),
{
    assert forall|i: int| 0 <= i < b.middle@.len() implies (
        #[trigger] b.middle@[i],
        b.upper_bound@[i],
        b.lower_bound@[i],
    ) == (c, c, c) by {
        let win = window_at(series, i, period as int);
        let u = (b.middle@[i], b.upper_bound@[i], b.lower_bound@[i]);
        assert(window_result(bands, win, u));
        let w = choose|w: &[T]| w@ == win && #[trigger] bands.ensures((w,), u);
        assert(constant_series(w@, c));
    }
}

/// Every RSI value satisfies `within` when every value that `index` can
/// return does: a bound on the index formula, such as lying in `[0, 100]`,
/// carries over to the whole result.
pub proof fn lemma_rsi_within<T, M, C, A, W, X>(
    series: Seq<T>,
    period: usize,
    change: C,
    average: A,
    smooth: W,
    index: X,
    moves: Seq<M>,
    averages: Seq<M>,
    out: Seq<T>,
    within: spec_fn(T) -> bool,
) where
    C: Fn(T, T) -> M,
    A: Fn(&[M]) -> M,
    W: Fn(usize, M, M) -> M,
    X: Fn(M) -> T,

    requires
        is_rsi_trace(series, period, change, average, smooth, index, moves, averages, out),
        forall|m: M, x: T| #[trigger] index.ensures((m,), x) ==> within(x),
    ensures
        forall|i: int| 0 <= i < out.len() ==> within(#[trigger] out[i]),
{
    assert forall|i: int| 0 <= i < out.len() implies within(#[trigger] out[i]) by {
        assert(index.ensures((averages[i],), out[i]));
    }
}

} // verus!

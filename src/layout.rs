//! When an indicator can be computed, and the shape of its result.

use vstd::prelude::*;

verus! {

/// The single failure of the engine: the series is too short for the
/// requested windows to yield at least one output element.
#[derive(Clone, Copy, Debug, PartialEq, Eq, Structural)]
pub enum IndicatorError {
    InsufficientData,
}

/// A series of `len` values holds at least one full window of `period`.
pub open spec fn windows_fit(len: int, period: int) -> bool {
    period >= 1 && len >= period
}

/// Number of full windows of `period` consecutive values among `len` values.
pub open spec fn num_windows(len: int, period: int) -> int {
    len - period + 1
}

/// RSI needs `period` price changes beyond the first price.
pub open spec fn rsi_fits(len: int, period: int) -> bool {
    period >= 1 && len > period
}

/// Length of an RSI result over `len` prices.
pub open spec fn rsi_len(len: int, period: int) -> int {
    len - period
}

/// The longer of the two MACD periods: the one whose EMA starts last.
pub open spec fn lead_period(fast: int, slow: int) -> int {
    if fast >= slow { fast } else { slow }
}

/// MACD can be computed: both EMAs exist and the MACD line holds at least
/// one full signal window.
pub open spec fn macd_fits(len: int, fast: int, slow: int, signal: int) -> bool {
    &&& fast >= 1
    &&& slow >= 1
    &&& signal >= 1
    &&& len >= lead_period(fast, slow)
    &&& num_windows(len, lead_period(fast, slow)) >= signal
}

/// Length of the SMA, EMA and Bollinger results over `len` values.
pub fn window_count(len: usize, period: usize) -> (r: Result<usize, IndicatorError>)
    ensures
        r is Ok <==> windows_fit(len as int, period as int),
        r matches Ok(n) ==> n == num_windows(len as int, period as int),
        r matches Err(e) ==> e == IndicatorError::InsufficientData,
{
    if period == 0 || len < period {
        Err(IndicatorError::InsufficientData)
    } else {
        Ok(len - period + 1)
    }
}

/// Length of the RSI result over `len` prices.
pub fn rsi_count(len: usize, period: usize) -> (r: Result<usize, IndicatorError>)
    ensures
        r is Ok <==> rsi_fits(len as int, period as int),
        r matches Ok(n) ==> n == rsi_len(len as int, period as int),
        r matches Err(e) ==> e == IndicatorError::InsufficientData,
{
    if period == 0 || len <= period {
        Err(IndicatorError::InsufficientData)
    } else {
        Ok(len - period)
    }
}

/// How the two EMAs of a MACD are aligned, and the lengths that result.
#[derive(Clone, Copy, Debug, PartialEq, Eq, Structural)]
pub struct MacdLayout {
    /// Leading elements of the fast EMA dropped before subtraction.
    pub fast_skip: usize,
    /// Leading elements of the slow EMA dropped before subtraction.
    pub slow_skip: usize,
    /// Length of the MACD line.
    pub macd_len: usize,
    /// Length of the signal line.
    pub signal_len: usize,
}

/// The layout of a MACD over `len` prices, or why there is none.
pub fn macd_layout(len: usize, fast: usize, slow: usize, signal: usize) -> (r: Result<
    MacdLayout,
    IndicatorError,
>)
    ensures
        r is Ok <==> macd_fits(len as int, fast as int, slow as int, signal as int),
        r matches Ok(m) ==> {
            &&& m.macd_len == num_windows(len as int, lead_period(fast as int, slow as int))
            &&& m.fast_skip == lead_period(fast as int, slow as int) - fast
            &&& m.slow_skip == lead_period(fast as int, slow as int) - slow
            &&& m.signal_len == num_windows(m.macd_len as int, signal as int)
        },
        r matches Err(e) ==> e == IndicatorError::InsufficientData,
{
    if fast == 0 || slow == 0 || signal == 0 {
        return Err(IndicatorError::InsufficientData);
    }
    let lead: usize = if fast >= slow { fast } else { slow };
    if len < lead {
        return Err(IndicatorError::InsufficientData);
    }
    let macd_len: usize = len - lead + 1;
    if macd_len < signal {
        return Err(IndicatorError::InsufficientData);
    }
    Ok(MacdLayout {
        fast_skip: lead - fast,
        slow_skip: lead - slow,
        macd_len,
        signal_len: macd_len - signal + 1,
    })
}

/// Once the leading elements of the longer EMA are dropped, the fast and the
/// slow EMA have equal lengths, and that length is the MACD line's,
/// `len - slow + 1` when the fast period is the shorter one.
pub proof fn lemma_macd_alignment(len: int, fast: int, slow: int, signal: int)
    requires
        macd_fits(len, fast, slow, signal),
    ensures
        num_windows(len, fast) - (lead_period(fast, slow) - fast) == num_windows(
            len,
            lead_period(fast, slow),
        ),
        num_windows(len, slow) - (lead_period(fast, slow) - slow) == num_windows(
            len,
            lead_period(fast, slow),
        ),
        fast <= slow ==> num_windows(len, lead_period(fast, slow)) == len - slow + 1,
        windows_fit(len, fast) && windows_fit(len, slow),
{
}

} // verus!

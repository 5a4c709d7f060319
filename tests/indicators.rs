use price_indicators::indicators::{bollinger_bands, ema, macd, rsi, sma};
use price_indicators::layout::{macd_layout, rsi_count, window_count, IndicatorError};

fn mean(w: &[f64]) -> f64 {
    w.iter().sum::<f64>() / w.len() as f64
}

fn ema_step(period: usize, prev: f64, price: f64) -> f64 {
    let alpha = 2.0 / (period as f64 + 1.0);
    (price - prev) * alpha + prev
}

fn diff(a: f64, b: f64) -> f64 {
    a - b
}

fn bands(w: &[f64]) -> (f64, f64, f64) {
    let m = mean(w);
    let var = w.iter().map(|x| (x - m) * (x - m)).sum::<f64>() / w.len() as f64;
    let sd = var.sqrt();
    (m, m + 2.0 * sd, m - 2.0 * sd)
}

fn change(a: f64, b: f64) -> (f64, f64) {
    let d = b - a;
    (if d > 0.0 { d } else { 0.0 }, if d < 0.0 { -d } else { 0.0 })
}

fn first_averages(w: &[(f64, f64)]) -> (f64, f64) {
    let n = w.len() as f64;
    (w.iter().map(|m| m.0).sum::<f64>() / n, w.iter().map(|m| m.1).sum::<f64>() / n)
}

fn wilder(period: usize, prev: (f64, f64), m: (f64, f64)) -> (f64, f64) {
    let p = period as f64;
    ((prev.0 * (p - 1.0) + m.0) / p, (prev.1 * (p - 1.0) + m.1) / p)
}

fn rsi_value(avg: (f64, f64)) -> f64 {
    if avg.1 == 0.0 {
        100.0
    } else {
        100.0 - 100.0 / (1.0 + avg.0 / avg.1)
    }
}

fn run_rsi(series: &[f64], period: usize) -> Result<Vec<f64>, IndicatorError> {
    rsi(series, period, change, first_averages, wilder, rsi_value)
}

#[test]
fn sma_of_one_to_five() {
    let v = sma(&[1.0, 2.0, 3.0, 4.0, 5.0], 3, mean).unwrap();
    assert_eq!(v, vec![2.0, 3.0, 4.0]);
}

#[test]
fn sma_matches_naive_double_loop() {
    let s = [3.0, 1.5, 4.0, 1.0, 5.5, 9.0, 2.5, 6.0];
    let period = 4;
    let v = sma(&s, period, mean).unwrap();
    assert_eq!(v.len(), s.len() - period + 1);
    for i in 0..v.len() {
        let mut total = 0.0;
        for j in i..i + period {
            total += s[j];
        }
        assert_eq!(v[i], total / period as f64);
    }
}

#[test]
fn ema_of_one_to_five() {
    let v = ema(&[1.0, 2.0, 3.0, 4.0, 5.0], 3, mean, ema_step).unwrap();
    assert_eq!(v, vec![2.0, 3.0, 4.0]);
}

#[test]
fn ema_seed_is_first_sma() {
    let s = [10.0, 11.5, 9.25, 12.0, 13.5, 12.75];
    let e = ema(&s, 4, mean, ema_step).unwrap();
    let m = sma(&s, 4, mean).unwrap();
    assert_eq!(e[0], m[0]);
    assert_eq!(e.len(), m.len());
}

#[test]
fn constant_series_stays_constant() {
    let s = [2.0; 10];
    assert!(sma(&s, 4, mean).unwrap().iter().all(|x| *x == 2.0));
    assert!(ema(&s, 4, mean, ema_step).unwrap().iter().all(|x| *x == 2.0));
    let b = bollinger_bands(&s, 4, bands).unwrap();
    assert_eq!(b.middle, vec![2.0; 7]);
    assert_eq!(b.upper_bound, vec![2.0; 7]);
    assert_eq!(b.lower_bound, vec![2.0; 7]);
}

#[test]
fn bollinger_uses_population_deviation() {
    let b = bollinger_bands(&[2.0, 4.0, 4.0, 4.0, 5.0, 5.0, 7.0, 9.0], 8, bands).unwrap();
    assert_eq!(b.middle, vec![5.0]);
    assert_eq!(b.upper_bound, vec![9.0]);
    assert_eq!(b.lower_bound, vec![1.0]);
}

#[test]
fn rsi_example_length_and_range() {
    let s = [44.0, 44.5, 44.0, 43.5, 44.0, 44.5, 45.0, 45.5];
    let v = run_rsi(&s, 3).unwrap();
    assert_eq!(v.len(), 5);
    assert!(v.iter().all(|x| (0.0..=100.0).contains(x)));
    assert_eq!(v, run_rsi(&s, 3).unwrap());
    assert_eq!(v[0], 100.0 - 100.0 / (1.0 + (0.5 / 3.0) / (1.0 / 3.0)));
}

#[test]
fn rsi_of_rising_series_is_hundred() {
    let s: Vec<f64> = (0..20).map(|i| 100.0 + i as f64).collect();
    let v = run_rsi(&s, 5).unwrap();
    assert_eq!(v.len(), 15);
    assert!(v.iter().all(|x| *x == 100.0));
}

#[test]
fn rsi_of_falling_series_is_zero() {
    let s: Vec<f64> = (0..10).map(|i| 50.0 - i as f64).collect();
    let v = run_rsi(&s, 3).unwrap();
    assert!(v.iter().all(|x| *x == 0.0));
}

#[test]
fn macd_lengths_and_alignment() {
    let s: Vec<f64> = (0..40).map(|i| ((i * 7) % 11) as f64 + 20.0).collect();
    let m = macd(&s, 12, 26, 9, mean, ema_step, diff).unwrap();
    assert_eq!(m.macd.len(), 40 - 26 + 1);
    assert_eq!(m.signal.len(), m.macd.len() - 9 + 1);
    let fast = ema(&s, 12, mean, ema_step).unwrap();
    let slow = ema(&s, 26, mean, ema_step).unwrap();
    for i in 0..m.macd.len() {
        assert_eq!(m.macd[i], fast[i + 14] - slow[i]);
    }
    let signal = ema(&m.macd, 9, mean, ema_step).unwrap();
    assert_eq!(m.signal, signal);
}

#[test]
fn macd_with_swapped_periods_trims_the_longer_ema() {
    let s: Vec<f64> = (0..12).map(|i| i as f64).collect();
    let m = macd(&s, 5, 3, 2, mean, ema_step, diff).unwrap();
    let fast = ema(&s, 5, mean, ema_step).unwrap();
    let slow = ema(&s, 3, mean, ema_step).unwrap();
    assert_eq!(m.macd.len(), 8);
    for i in 0..8 {
        assert_eq!(m.macd[i], fast[i] - slow[i + 2]);
    }
}

#[test]
fn short_series_is_insufficient_data() {
    let s = [1.0, 2.0, 3.0];
    let e = IndicatorError::InsufficientData;
    assert_eq!(sma(&s, 4, mean), Err(e));
    assert_eq!(sma(&s, 0, mean), Err(e));
    assert_eq!(ema(&s, 4, mean, ema_step), Err(e));
    assert!(matches!(bollinger_bands(&s, 4, bands), Err(IndicatorError::InsufficientData)));
    assert_eq!(run_rsi(&s, 3), Err(e));
    assert!(matches!(macd(&s, 2, 4, 1, mean, ema_step, diff), Err(IndicatorError::InsufficientData)));
    assert!(matches!(macd(&s, 1, 2, 3, mean, ema_step, diff), Err(IndicatorError::InsufficientData)));
    assert!(matches!(macd(&s, 1, 2, 2, mean, ema_step, diff), Ok(_)));
    assert_eq!(sma(&[] as &[f64], 1, mean), Err(e));
}

#[test]
fn exact_window_length_gives_one_value() {
    let s = [1.0, 2.0, 3.0];
    assert_eq!(sma(&s, 3, mean).unwrap(), vec![2.0]);
    assert_eq!(run_rsi(&[1.0, 2.0, 3.0, 4.0], 3).unwrap().len(), 1);
}

#[test]
fn layout_counts() {
    assert_eq!(window_count(5, 3), Ok(3));
    assert_eq!(window_count(3, 3), Ok(1));
    assert_eq!(window_count(2, 3), Err(IndicatorError::InsufficientData));
    assert_eq!(window_count(5, 0), Err(IndicatorError::InsufficientData));
    assert_eq!(rsi_count(8, 3), Ok(5));
    assert_eq!(rsi_count(3, 3), Err(IndicatorError::InsufficientData));
    let l = macd_layout(100, 12, 26, 9).unwrap();
    assert_eq!((l.fast_skip, l.slow_skip, l.macd_len, l.signal_len), (14, 0, 75, 67));
    assert_eq!(macd_layout(30, 12, 26, 9), Err(IndicatorError::InsufficientData));
    assert_eq!(macd_layout(30, 12, 26, 0), Err(IndicatorError::InsufficientData));
}

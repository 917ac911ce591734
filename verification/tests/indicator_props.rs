//! Alignment and known values of the moving averages.

use trading_core::Candle;
use trading_core::Ema;
use trading_core::Sma;

fn create_candle(close_micros: u64) -> Candle {
    Candle {
        symbol: "TEST".to_string(),
        timestamp: 0,
        open: close_micros,
        high: close_micros,
        low: close_micros,
        close: close_micros,
        volume: 0,
        trades: 0,
    }
}

#[test]
fn test_sma_known_values() {
    // Closes 1, 2, 3, 4 with period 2: means 1.5, 2.5, 3.5.
    let candles: Vec<Candle> = (1..=4u64).map(|i| create_candle(i * 1_000_000)).collect();
    let sma = Sma::new(2);
    let results = sma.calculate(&candles);
    assert_eq!(
        results,
        vec![None, Some(1_500_000), Some(2_500_000), Some(3_500_000)]
    );
}

#[test]
fn test_sma_window_times_period_matches_sum() {
    // The defined average times the period differs from the window sum
    // by less than the period (in ticks).
    let closes: Vec<u64> = vec![10_000_001, 10_000_003, 10_000_007, 9_999_999, 10_000_013];
    let candles: Vec<Candle> = closes.iter().map(|&c| create_candle(c)).collect();
    let period = 3u64;
    let sma = Sma::new(period as usize);
    let results = sma.calculate(&candles);
    for i in 0..closes.len() {
        match results[i] {
            None => assert!(i + 1 < period as usize + 1),
            Some(v) => {
                let sum: u64 = closes[i + 1 - period as usize..=i].iter().sum();
                assert!(v * period <= sum);
                assert!(sum < v * period + period);
            }
        }
    }
}

#[test]
fn test_indicator_output_alignment() {
    // Outputs have the input's length and the first defined index is
    // period - 1 for the averages.
    let candles: Vec<Candle> = (1..=7u64).map(|i| create_candle(i * 1_000_000)).collect();
    let period = 4usize;
    let sma = Sma::new(period).calculate(&candles);
    let ema = Ema::new(period).calculate(&candles);
    assert_eq!(sma.len(), candles.len());
    assert_eq!(ema.len(), candles.len());
    for i in 0..candles.len() {
        assert_eq!(sma[i].is_some(), i >= period - 1);
        assert_eq!(ema[i].is_some(), i >= period - 1);
    }
}

#[test]
fn test_indicator_undersupplied_and_empty() {
    let candles: Vec<Candle> = (1..=3u64).map(|i| create_candle(i * 1_000_000)).collect();
    assert_eq!(Sma::new(5).calculate(&candles), vec![None, None, None]);
    assert_eq!(Ema::new(5).calculate(&candles), vec![None, None, None]);
    let empty: Vec<Candle> = Vec::new();
    assert!(Sma::new(5).calculate(&empty).is_empty());
    assert!(Ema::new(5).calculate(&empty).is_empty());
}

#[test]
fn test_ema_seed_is_plain_mean() {
    // The reference series: the seed at index 9 is the plain mean
    // 22.221 of the first ten closes.
    let closes = [
        22.27f64, 22.19, 22.08, 22.17, 22.18, 22.13, 22.23, 22.43, 22.24, 22.29,
    ];
    let candles: Vec<Candle> = closes
        .iter()
        .map(|&c| create_candle((c * 1_000_000.0).round() as u64))
        .collect();
    let ema = Ema::new(10).calculate(&candles);
    for i in 0..9 {
        assert_eq!(ema[i], None);
    }
    assert_eq!(ema[9], Some(22_221_000));
}

#[test]
fn test_indicator_names() {
    assert_eq!(Sma::new(20).name(), "SMA(20)");
    assert_eq!(Ema::new(9).name(), "EMA(9)");
    assert_eq!(trading_core::Rsi::new(14).name(), "RSI(14)");
}

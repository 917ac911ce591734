//! The relative strength index against reference series.

use trading_core::Candle;
use trading_core::Rsi;

fn create_candle(close_micros: u64) -> Candle {
    Candle {
        symbol: "TEST".to_string(),
        timestamp: 0,
        open: close_micros,
        high: close_micros,
        low: close_micros,
        close: close_micros,
        volume: 0,
        trades: 0,
    }
}

fn micros(units: f64) -> u64 {
    (units * 1_000_000.0).round() as u64
}

fn as_units(v: u64) -> f64 {
    v as f64 / 1_000_000.0
}

fn assert_vec_close_2dp(a: &[Option<u64>], b: &[Option<f64>]) {
    assert_eq!(a.len(), b.len(), "Vectors differ in length");
    for (i, (val_a, val_b)) in a.iter().zip(b.iter()).enumerate() {
        match (val_a, val_b) {
            (None, None) => {}
            (Some(got), Some(expected)) => {
                let got_units = as_units(*got);
                assert!(
                    (got_units - expected).abs() < 0.01,
                    "Mismatch at index {}: expected {:.2}, got {}",
                    i,
                    expected,
                    got_units
                );
            }
            _ => panic!("Mismatch at index {}: one is undefined, the other is not", i),
        }
    }
}

#[test]
fn test_rsi_calculation_stockcharts_example() {
    let prices = vec![
        44.34, 44.09, 44.15, 43.61, 44.33, 44.83, 45.10, 45.42, 45.84, 46.08, 45.89, 46.03,
        45.61, 46.28, 46.28, 46.00, 46.03, 46.41, 46.22, 45.64, 46.25,
    ];
    let candles: Vec<Candle> = prices.iter().map(|&p| create_candle(micros(p))).collect();

    let rsi_calculator = Rsi::new(14);
    let results = rsi_calculator.calculate(&candles);

    let expected: Vec<Option<f64>> = vec![
        None,
        None,
        None,
        None,
        None,
        None,
        None,
        None,
        None,
        None,
        None,
        None,
        None,
        None,
        Some(70.46),
        Some(66.25),
        Some(66.48),
        Some(69.35),
        Some(66.29),
        Some(57.91),
        Some(63.19),
    ];
    assert_vec_close_2dp(&results, &expected);
}

#[test]
fn test_rsi_insufficient_data() {
    let candles = vec![create_candle(1_000_000); 10];
    let rsi = Rsi::new(14);
    let results = rsi.calculate(&candles);
    assert_eq!(results, vec![None; 10]);
}

#[test]
fn test_rsi_all_gains() {
    let candles = (1..=20u64).map(|i| create_candle(i * 1_000_000)).collect::<Vec<_>>();
    let rsi = Rsi::new(14);
    let results = rsi.calculate(&candles);

    let mut expected: Vec<Option<u64>> = vec![None; 14];
    for _ in 14..20 {
        expected.push(Some(100_000_000));
    }
    assert_eq!(results, expected);
}

#[test]
fn test_rsi_all_losses() {
    let candles = (1..=20u64).map(|i| create_candle((21 - i) * 1_000_000)).collect::<Vec<_>>();
    let rsi = Rsi::new(14);
    let results = rsi.calculate(&candles);
    let mut expected: Vec<Option<u64>> = vec![None; 14];
    for _ in 14..20 {
        expected.push(Some(0));
    }
    assert_eq!(results, expected);
}

#[test]
fn test_rsi_no_change() {
    let candles = vec![create_candle(10_000_000); 20];
    let rsi = Rsi::new(14);
    let results = rsi.calculate(&candles);
    let mut expected: Vec<Option<u64>> = vec![None; 14];
    for _ in 14..20 {
        expected.push(Some(100_000_000));
    }
    assert_eq!(results, expected);
}

#[test]
fn test_rsi_empty_data() {
    let candles: Vec<Candle> = Vec::new();
    let rsi = Rsi::new(14);
    let results = rsi.calculate(&candles);
    assert!(results.is_empty());
}

#[test]
fn test_rsi_period_one() {
    let candles = vec![
        create_candle(10_000_000),
        create_candle(11_000_000),
        create_candle(10_500_000),
        create_candle(10_500_000),
        create_candle(12_000_000),
    ];
    let rsi = Rsi::new(1);
    let results = rsi.calculate(&candles);
    assert_eq!(
        results,
        vec![None, Some(100_000_000), Some(0), Some(100_000_000), Some(100_000_000)]
    );
}

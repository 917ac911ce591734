//! The store's merge discipline and the service handlers.

use trading_core::handle_calculate_indicator;
use trading_core::handle_get_market_data;
use trading_core::handle_load_csv_data;
use trading_core::handle_simulate_trade;
use trading_core::Candle;
use trading_core::IndicatorRequest;
use trading_core::MarketDataRequest;
use trading_core::MarketDataStore;
use trading_core::TimeFrame;
use trading_core::TradeRequest;

fn candle_at(symbol: &str, ts: i64, close: u64) -> Candle {
    Candle {
        symbol: symbol.to_string(),
        timestamp: ts,
        open: close,
        high: close,
        low: close,
        close,
        volume: 0,
        trades: 0,
    }
}

fn sample_candle(symbol: &str, open: f64, high: f64, low: f64, close: f64) -> Candle {
    Candle {
        symbol: symbol.to_string(),
        timestamp: 1_000,
        open: (open * 1_000_000.0).round() as u64,
        high: (high * 1_000_000.0).round() as u64,
        low: (low * 1_000_000.0).round() as u64,
        close: (close * 1_000_000.0).round() as u64,
        volume: 1_000_000_000,
        trades: 100,
    }
}

fn store_with_candle(symbol: &str, candle: Candle) -> MarketDataStore {
    let mut store = MarketDataStore::new();
    store.add_candles(symbol, TimeFrame::Day1, vec![candle]).unwrap();
    store
}

fn trade_request(
    symbol: &str,
    action: &str,
    quantity: u64,
    price: Option<u64>,
    order_type: &str,
) -> TradeRequest {
    TradeRequest {
        symbol: symbol.to_string(),
        action: action.to_string(),
        quantity,
        price,
        order_type: order_type.to_string(),
    }
}

#[test]
fn test_store_idempotent_insert() {
    // Inserting the same candle twice leaves exactly one record at that
    // timestamp.
    let mut store = MarketDataStore::new();
    let c = candle_at("IDEM", 42, 5_000_000);
    store.add_candles("IDEM", TimeFrame::Day1, vec![c.clone()]).unwrap();
    store.add_candles("IDEM", TimeFrame::Day1, vec![c]).unwrap();
    let got = store.get_candles("IDEM", TimeFrame::Day1, None, None).unwrap();
    assert_eq!(got.len(), 1);
    assert_eq!(got[0].timestamp, 42);
}

#[test]
fn test_store_ordering_after_merges() {
    // After any sequence of merges the series is strictly ascending.
    let mut store = MarketDataStore::new();
    store
        .add_candles(
            "ORD",
            TimeFrame::Day1,
            vec![candle_at("ORD", 30, 1), candle_at("ORD", 10, 2)],
        )
        .unwrap();
    store
        .add_candles(
            "ORD",
            TimeFrame::Day1,
            vec![candle_at("ORD", 20, 3), candle_at("ORD", 10, 4), candle_at("ORD", 40, 5)],
        )
        .unwrap();
    let got = store.get_candles("ORD", TimeFrame::Day1, None, None).unwrap();
    let stamps: Vec<i64> = got.iter().map(|c| c.timestamp).collect();
    assert_eq!(stamps, vec![10, 20, 30, 40]);
    for w in stamps.windows(2) {
        assert!(w[0] < w[1]);
    }
    // The stored record won over the new one sharing its timestamp.
    assert_eq!(got[0].close, 2);
}

#[test]
fn test_store_none_versus_empty() {
    let mut store = MarketDataStore::new();
    store.add_candles("KNOWN", TimeFrame::Day1, vec![candle_at("KNOWN", 100, 1)]).unwrap();
    // Unknown symbol: no series at all.
    assert!(store.get_candles("UNKNOWN", TimeFrame::Day1, None, None).is_none());
    // Known symbol, nothing in range: an empty answer.
    let empty = store.get_candles("KNOWN", TimeFrame::Day1, Some(200), Some(300)).unwrap();
    assert!(empty.is_empty());
    // Bounds are inclusive on both ends.
    let hit = store.get_candles("KNOWN", TimeFrame::Day1, Some(100), Some(100)).unwrap();
    assert_eq!(hit.len(), 1);
}

#[test]
fn test_store_keys_are_independent() {
    let mut store = MarketDataStore::new();
    store.add_candles("A", TimeFrame::Day1, vec![candle_at("A", 1, 1)]).unwrap();
    store.add_candles("A", TimeFrame::Minute1, vec![candle_at("A", 2, 2)]).unwrap();
    store.add_candles("B", TimeFrame::Day1, vec![candle_at("B", 3, 3)]).unwrap();
    assert_eq!(store.get_candles("A", TimeFrame::Day1, None, None).unwrap().len(), 1);
    assert_eq!(store.get_candles("A", TimeFrame::Minute1, None, None).unwrap().len(), 1);
    assert_eq!(store.get_candles("B", TimeFrame::Day1, None, None).unwrap().len(), 1);
    assert!(store.get_candles("B", TimeFrame::Minute1, None, None).is_none());
}

#[test]
fn test_load_csv_data_success() {
    let mut store = MarketDataStore::new();
    let csv_content = "Ativo;Data;Hora;Abertura;Máximo;Mínimo;Fechamento;Volume;Quantidade\nWINFUT;30/12/2024;18:20:00;124.080;124.090;123.938;123.983;600.822.115,84;24.228";
    let response = handle_load_csv_data(csv_content, "WINFUT", &mut store).unwrap();
    assert!(response.success);
    assert_eq!(response.candles_loaded, 1);
    assert!(response.message.contains("Loaded 1 candles"));
    let candles_in_store = store.get_candles("WINFUT", TimeFrame::Day1, None, None);
    assert!(candles_in_store.is_some());
    assert_eq!(candles_in_store.unwrap().len(), 1);
}

#[test]
fn test_load_csv_data_parsing_error_bad_content() {
    let mut store = MarketDataStore::new();
    let csv_content = "Ativo;Data;Hora;Abertura;Máximo;Mínimo;Fechamento;Volume;Quantidade\nWINFUT;30/12/2024;18:20:00;NOT_A_NUMBER";
    let result = handle_load_csv_data(csv_content, "WINFUT", &mut store);
    assert!(result.is_err());
    let msg = result.unwrap_err().message();
    assert!(msg.contains("CSV parsing system error"));
    assert!(msg.to_lowercase().contains("fields"));
    assert!(msg.to_lowercase().contains("header"));
    // Nothing was stored.
    assert!(store.get_candles("WINFUT", TimeFrame::Day1, None, None).is_none());
}

#[test]
fn test_load_csv_data_bad_data_format_correct_columns() {
    let mut store = MarketDataStore::new();
    let csv_content = "Ativo;Data;Hora;Abertura;Máximo;Mínimo;Fechamento;Volume;Quantidade\nWINFUT;30/12/2024;18:20:00;NOT_A_NUMBER;124.090;123.938;123.983;600.822.115,84;24.228";
    let result = handle_load_csv_data(csv_content, "WINFUT", &mut store);
    assert!(result.is_err());
    let msg = result.unwrap_err().message();
    assert!(msg.contains("CSV data format error"));
    assert!(msg.contains("Error parsing 'Abertura'"));
    assert!(msg.contains("Failed to parse decimal 'NOT_A_NUMBER'"));
}

#[test]
fn test_simulate_trade_no_market_data() {
    let store = MarketDataStore::new();
    let request = trade_request("NODATA", "BUY", 10, None, "MARKET");
    let response = handle_simulate_trade(&request, &store);
    assert!(!response.success);
    assert!(response.message.contains("No market data available"));
    assert_eq!(response.order_id.len(), 36);
}

#[test]
fn test_simulate_trade_market_buy() {
    let candle = sample_candle("TEST", 100.0, 102.0, 98.0, 101.0);
    let close = candle.close;
    let store = store_with_candle("TEST", candle);
    let request = trade_request("TEST", "BUY", 10, None, "MARKET");
    let response = handle_simulate_trade(&request, &store);
    assert!(response.success);
    assert_eq!(response.filled_price, close);
    assert_eq!(response.filled_quantity, 10);
    assert!(response.message.contains("Market BUY order"));
}

#[test]
fn test_simulate_trade_limit_buy_fill() {
    let store = store_with_candle("TEST", sample_candle("TEST", 100.0, 102.0, 98.0, 101.0));
    let limit_price = 99_000_000;
    let request = trade_request("TEST", "BUY", 5, Some(limit_price), "LIMIT");
    let response = handle_simulate_trade(&request, &store);
    assert!(response.success);
    assert_eq!(response.filled_price, limit_price);
    assert_eq!(response.filled_quantity, 5);
}

#[test]
fn test_simulate_trade_limit_buy_no_fill() {
    let store = store_with_candle("TEST", sample_candle("TEST", 100.0, 102.0, 99.0, 101.0));
    let request = trade_request("TEST", "BUY", 5, Some(98_000_000), "LIMIT");
    let response = handle_simulate_trade(&request, &store);
    assert!(!response.success);
    assert!(response.message.contains("not filled"));
}

#[test]
fn test_simulate_trade_limit_sell_fill() {
    let store = store_with_candle("TEST", sample_candle("TEST", 100.0, 102.0, 98.0, 101.0));
    let limit_price = 101_500_000;
    let request = trade_request("TEST", "SELL", 7, Some(limit_price), "LIMIT");
    let response = handle_simulate_trade(&request, &store);
    assert!(response.success);
    assert_eq!(response.filled_price, limit_price);
    assert_eq!(response.filled_quantity, 7);
}

#[test]
fn test_simulate_trade_limit_sell_no_fill() {
    let store = store_with_candle("TEST", sample_candle("TEST", 100.0, 101.0, 98.0, 100.5));
    let request = trade_request("TEST", "SELL", 7, Some(101_500_000), "LIMIT");
    let response = handle_simulate_trade(&request, &store);
    assert!(!response.success);
    assert!(response.message.contains("not filled"));
}

#[test]
fn test_simulate_trade_limit_no_price() {
    let store = store_with_candle("TEST", sample_candle("TEST", 100.0, 101.0, 99.0, 100.0));
    let request = trade_request("TEST", "BUY", 1, None, "LIMIT");
    let response = handle_simulate_trade(&request, &store);
    assert!(!response.success);
    assert_eq!(response.message, "Limit price is required for LIMIT orders.");
}

#[test]
fn test_simulate_trade_unsupported_order_type() {
    let store = store_with_candle("TEST", sample_candle("TEST", 100.0, 101.0, 99.0, 100.0));
    let request = trade_request("TEST", "BUY", 1, None, "FOOBAZ");
    let response = handle_simulate_trade(&request, &store);
    assert!(!response.success);
    assert_eq!(
        response.message,
        "Unsupported order type: 'FOOBAZ'. Use 'MARKET' or 'LIMIT'."
    );
}

#[test]
fn test_simulate_trade_limit_unknown_action() {
    let store = store_with_candle("TEST", sample_candle("TEST", 100.0, 102.0, 98.0, 101.0));
    let request = trade_request("TEST", "HOLD", 1, Some(100_000_000), "LIMIT");
    let response = handle_simulate_trade(&request, &store);
    assert!(!response.success);
    assert_eq!(
        response.message,
        "Unknown action 'HOLD' for LIMIT order. Use 'BUY' or 'SELL'."
    );
}

#[test]
fn test_simulate_trade_boundary_scenarios() {
    // The latest bar is {low: 98, high: 102, close: 101}.
    let store = store_with_candle("SCN", sample_candle("SCN", 100.0, 102.0, 98.0, 101.0));

    // A limit buy at 99 fills at 99.
    let r = handle_simulate_trade(&trade_request("SCN", "BUY", 3, Some(99_000_000), "LIMIT"), &store);
    assert!(r.success);
    assert_eq!(r.filled_price, 99_000_000);

    // A limit buy at 97 does not fill: the low never reached it.
    let r = handle_simulate_trade(&trade_request("SCN", "BUY", 3, Some(97_000_000), "LIMIT"), &store);
    assert!(!r.success);

    // A limit sell at 101.5 fills: the high 102 reached it.
    let r = handle_simulate_trade(&trade_request("SCN", "SELL", 3, Some(101_500_000), "LIMIT"), &store);
    assert!(r.success);
    assert_eq!(r.filled_price, 101_500_000);

    // A market order of any size fills at the close 101.
    let r = handle_simulate_trade(&trade_request("SCN", "SELL", 1_000_000, None, "MARKET"), &store);
    assert!(r.success);
    assert_eq!(r.filled_price, 101_000_000);
}

#[test]
fn test_simulate_trade_lowercase_words() {
    // Order words are matched case-insensitively and the action is
    // echoed upper-cased in the fill report.
    let store = store_with_candle("TEST", sample_candle("TEST", 100.0, 102.0, 98.0, 101.0));
    let response = handle_simulate_trade(&trade_request("TEST", "buy", 2, None, "market"), &store);
    assert!(response.success);
    assert!(response.message.contains("Market BUY order"));
}

#[test]
fn test_calculate_indicator_paths() {
    let mut store = MarketDataStore::new();
    let req = IndicatorRequest {
        symbol: "X".to_string(),
        indicator_type: "SMA".to_string(),
        period: Some(2),
    };
    // Unknown symbol: a lookup error.
    let err = handle_calculate_indicator(&req, &store).unwrap_err();
    assert!(err.message().contains("No candle data found"));

    store
        .add_candles(
            "X",
            TimeFrame::Day1,
            vec![candle_at("X", 1, 1_000_000), candle_at("X", 2, 3_000_000)],
        )
        .unwrap();

    // A known kind with a valid period computes aligned values.
    let resp = handle_calculate_indicator(&req, &store).unwrap();
    assert_eq!(resp.indicator_name, "SMA(2)");
    assert_eq!(resp.values, vec![None, Some(2_000_000)]);

    // The kind is matched case-insensitively.
    let req_lower = IndicatorRequest {
        symbol: "X".to_string(),
        indicator_type: "sma".to_string(),
        period: Some(2),
    };
    assert!(handle_calculate_indicator(&req_lower, &store).is_ok());

    // A zero period is a configuration error.
    let req_zero = IndicatorRequest {
        symbol: "X".to_string(),
        indicator_type: "SMA".to_string(),
        period: Some(0),
    };
    let err = handle_calculate_indicator(&req_zero, &store).unwrap_err();
    assert!(err.message().contains("Indicator period cannot be 0"));

    // An unrecognized kind is named in the error.
    let req_bad = IndicatorRequest {
        symbol: "X".to_string(),
        indicator_type: "WMA".to_string(),
        period: Some(2),
    };
    let err = handle_calculate_indicator(&req_bad, &store).unwrap_err();
    assert!(err.message().contains("Unknown indicator type: WMA"));
}

#[test]
fn test_get_market_data_paths() {
    let mut store = MarketDataStore::new();
    store
        .add_candles(
            "Q",
            TimeFrame::Day1,
            vec![candle_at("Q", 1_000, 1), candle_at("Q", 2_000, 2), candle_at("Q", 3_000, 3)],
        )
        .unwrap();

    // An in-range query returns the filtered series in wire shape.
    let req = MarketDataRequest {
        symbol: "Q".to_string(),
        from_timestamp: 1_500,
        to_timestamp: 3_000,
    };
    let resp = handle_get_market_data(&req, &store).unwrap();
    assert_eq!(resp.candles.len(), 2);
    assert_eq!(resp.candles[0].timestamp, 2_000);
    assert_eq!(resp.candles[1].timestamp, 3_000);
    assert_eq!(resp.candles[0].symbol, "Q");

    // An unknown symbol is an error, not an empty answer.
    let req_missing = MarketDataRequest {
        symbol: "NOPE".to_string(),
        from_timestamp: 0,
        to_timestamp: 10_000,
    };
    let err = handle_get_market_data(&req_missing, &store).unwrap_err();
    assert!(err.message().contains("Market data not found"));

    // A timestamp outside the representable range is rejected.
    let req_bad_ts = MarketDataRequest {
        symbol: "Q".to_string(),
        from_timestamp: i64::MIN,
        to_timestamp: 10_000,
    };
    let err = handle_get_market_data(&req_bad_ts, &store).unwrap_err();
    assert!(err.message().contains("Invalid gRPC timestamp"));
}

#[test]
fn it_works() {
    assert_eq!(2 + 2, 4);
}

#[test]
fn lib_it_works() {
    let result = 2 + 2;
    assert_eq!(result, 4);
}

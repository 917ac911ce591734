//! The service facade: plain request and response shapes for the four
//! operations the core exposes — ingest, query, compute indicator,
//! simulate order — and the handlers that carry them out against one
//! store. The transport that frames these values is not the core's
//! concern.

pub mod calculate_indicator;
pub mod get_market_data;
pub mod helpers;
pub mod load_csv_data;
pub mod simulate_trade;

use vstd::prelude::*;

verus! {

/// Outcome of loading a candle source into the store.
#[derive(Debug, Clone)]
pub struct LoadCsvResponse {
    pub success: bool,
    pub message: String,
    pub candles_loaded: usize,
}

/// A range query over one symbol's series, bounds in epoch milliseconds.
#[derive(Debug, Clone)]
pub struct MarketDataRequest {
    pub symbol: String,
    pub from_timestamp: i64,
    pub to_timestamp: i64,
}

/// One candle in the wire shape handed to consumers.
#[derive(Debug, Clone)]
pub struct GrpcCandle {
    pub symbol: String,
    pub timestamp: i64,
    pub open: u64,
    pub high: u64,
    pub low: u64,
    pub close: u64,
    pub volume: u64,
    pub trades: i32,
}

/// The candles answering a range query.
#[derive(Debug, Clone)]
pub struct MarketDataResponse {
    pub candles: Vec<GrpcCandle>,
}

/// A request to compute one indicator over a symbol's series. A missing
/// period falls back to the indicator's default.
#[derive(Debug, Clone)]
pub struct IndicatorRequest {
    pub symbol: String,
    pub indicator_type: String,
    pub period: Option<usize>,
}

/// An indicator's name and its aligned per-bar values; `None` marks a
/// position where the indicator is undefined.
#[derive(Debug, Clone)]
pub struct IndicatorResponse {
    pub indicator_name: String,
    pub values: Vec<Option<u64>>,
}

/// A single-shot order to simulate: buy or sell, market or limit.
#[derive(Debug, Clone)]
pub struct TradeRequest {
    pub symbol: String,
    pub action: String,
    pub quantity: u64,
    pub price: Option<u64>,
    pub order_type: String,
}

/// The fill outcome of a simulated order. A rejection for business
/// reasons is a successful response with `success` false and the reason
/// in `message`, never an error.
#[derive(Debug, Clone)]
pub struct TradeResponse {
    pub success: bool,
    pub message: String,
    pub order_id: String,
    pub filled_price: u64,
    pub filled_quantity: u64,
}

/// Relies on `uuid::Uuid::new_v4` and the hyphenated form its `Display`
/// uses: a fresh correlation identifier rendered as 36 characters. The
/// value is random, so nothing more is promised of it.
#[verifier::external_body]
pub(crate) fn new_order_id() -> (r: String)
    ensures
        r@.len() == 36,
{
    uuid::Uuid::new_v4().to_string()
}

} // verus!

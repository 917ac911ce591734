//! Core of a market-data processing and analytics service.
//!
//! The library ingests locale-formatted candlestick records, keeps an
//! in-memory time-series store keyed by instrument and timeframe, computes
//! technical indicators over a stored series, and simulates order fills
//! against the latest known price bar.
//!
//! Prices, volumes and indicator values are fixed-point numbers held in
//! millionths of a unit, so that every computation is exact integer
//! arithmetic with a verified contract.

pub mod app_config;
mod candle;
mod csv_parser;
mod datetime;
mod decimal;
mod error;
mod indicators;
mod text;
mod service;
pub mod settings;
mod store;
mod theme;

pub use candle::Candle;
pub use candle::TimeFrame;
pub use csv_parser::BrazilianCsvParser;
pub use datetime::parse_datetime;
pub use datetime::UtcDateTime;
pub use decimal::parse_decimal;
pub use decimal::parse_volume;
pub use decimal::SCALE;
pub use error::EngineError;
pub use indicators::Ema;
pub use indicators::Rsi;
pub use indicators::Sma;
pub use service::calculate_indicator::handle_calculate_indicator;
pub use service::get_market_data::handle_get_market_data;
pub use service::helpers::from_grpc_timestamp;
pub use service::helpers::to_grpc_candle;
pub use service::load_csv_data::handle_load_csv_data;
pub use service::simulate_trade::handle_simulate_trade;
pub use service::GrpcCandle;
pub use service::IndicatorRequest;
pub use service::IndicatorResponse;
pub use service::LoadCsvResponse;
pub use service::MarketDataRequest;
pub use service::MarketDataResponse;
pub use service::TradeRequest;
pub use service::TradeResponse;
pub use settings::get_engine_settings;
pub use settings::EngineSettings;
pub use store::MarketDataStore;
pub use theme::Theme;
pub use theme::ThemePalette;

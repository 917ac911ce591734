//! The consumer-side configuration shape: everything a front end reads
//! from its configuration file. The core only defines the shape; loading
//! and deserializing the file is the caller's concern.

use vstd::prelude::*;

verus! {

/// The whole configuration file.
#[derive(Debug, Clone)]
pub struct AppConfig {
    pub version: String,
    pub app: AppSettings,
    pub engine: EngineConnSettings,
    pub chart: ChartConfig,
    pub indicators: IndicatorDefaults,
    pub data: DataSettings,
    pub shortcuts: Shortcuts,
}

/// General application preferences.
#[derive(Debug, Clone)]
pub struct AppSettings {
    pub theme: String,
    pub language: String,
    pub auto_save: bool,
    pub auto_save_interval: u32,
}

/// Where the engine is reached.
#[derive(Debug, Clone)]
pub struct EngineConnSettings {
    pub host: String,
    pub port: u16,
}

/// How the chart is drawn.
#[derive(Debug, Clone)]
pub struct ChartConfig {
    pub chart_type: String,
    pub candle: CandleStyle,
    pub background: String,
    pub grid: GridStyle,
    pub crosshair: CrosshairStyle,
    pub time_scale: ScaleStyle,
    pub price_scale: ScaleStyle,
}

/// Colours and widths of the candle bodies.
#[derive(Debug, Clone)]
pub struct CandleStyle {
    pub bullish_color: String,
    pub bearish_color: String,
    pub border_width: u32,
    pub wick_width: u32,
}

/// The chart grid's look.
#[derive(Debug, Clone)]
pub struct GridStyle {
    pub color: String,
    pub enabled: bool,
    pub style: String,
}

/// The crosshair's look.
#[derive(Debug, Clone)]
pub struct CrosshairStyle {
    pub enabled: bool,
    pub color: String,
    pub style: String,
}

/// One axis scale's look.
#[derive(Debug, Clone)]
pub struct ScaleStyle {
    pub visible: bool,
    pub color: String,
    pub border_color: String,
    pub mode: Option<String>,
}

/// Default settings per indicator.
#[derive(Debug, Clone)]
pub struct IndicatorDefaults {
    pub sma: IndicatorSetting,
    pub ema: IndicatorSetting,
    pub rsi: RsiSetting,
}

/// Defaults for a moving-average indicator.
#[derive(Debug, Clone)]
pub struct IndicatorSetting {
    pub enabled: bool,
    pub periods: Vec<u32>,
    pub colors: Vec<String>,
    pub line_width: u32,
}

/// Defaults for the relative strength index.
#[derive(Debug, Clone)]
pub struct RsiSetting {
    pub enabled: bool,
    pub period: u32,
    pub overbought: u32,
    pub oversold: u32,
    pub color: String,
}

/// How source files are read.
#[derive(Debug, Clone)]
pub struct DataSettings {
    pub csv_delimiter: String,
    pub decimal_separator: String,
    pub thousand_separator: String,
    pub date_format: String,
    pub time_format: String,
}

/// Keyboard shortcuts.
#[derive(Debug, Clone)]
pub struct Shortcuts {
    pub command_palette: String,
    pub load_csv: String,
    pub save_project: String,
    pub exit: String,
    pub zoom_in: String,
    pub zoom_out: String,
    pub reset_zoom: String,
}

} // verus!

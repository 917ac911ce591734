//! Settings, themes and the configuration shape.

use trading_core::app_config::AppConfig;
use trading_core::app_config::AppSettings;
use trading_core::app_config::CandleStyle;
use trading_core::app_config::ChartConfig;
use trading_core::app_config::CrosshairStyle;
use trading_core::app_config::DataSettings;
use trading_core::app_config::GridStyle;
use trading_core::app_config::IndicatorDefaults;
use trading_core::app_config::IndicatorSetting;
use trading_core::app_config::RsiSetting;
use trading_core::app_config::ScaleStyle;
use trading_core::app_config::Shortcuts;
use trading_core::get_engine_settings;
use trading_core::settings::AppSettings as EngineAppSettings;
use trading_core::EngineSettings;
use trading_core::Theme;
use trading_core::ThemePalette;

#[test]
fn test_engine_settings_defaults() {
    let s = EngineSettings::default();
    assert_eq!(s.host, "127.0.0.1");
    assert_eq!(s.port, 50051);
    assert_eq!(s.max_connections, 10);
    assert_eq!(s.thread_pool_size, 4);
}

#[test]
fn test_get_engine_settings_prefers_loaded() {
    let loaded = EngineAppSettings {
        engine: EngineSettings {
            host: "0.0.0.0".to_string(),
            port: 9000,
            max_connections: 2,
            thread_pool_size: 1,
        },
    };
    let s = get_engine_settings(Some(loaded));
    assert_eq!(s.host, "0.0.0.0");
    assert_eq!(s.port, 9000);

    let fallback = get_engine_settings(None);
    assert_eq!(fallback.host, "127.0.0.1");
    assert_eq!(fallback.port, 50051);
}

#[test]
fn test_theme_palettes() {
    let dark = ThemePalette::default_dark();
    assert_eq!(dark.background, "#1e1e1e");
    assert_eq!(dark.chart_bullish, "#26a69a");
    assert_eq!(dark.chart_bearish, "#ef5350");
    let light = ThemePalette::default_light();
    assert_eq!(light.background, "#ffffff");
    assert_eq!(light.chart_bullish, "#4caf50");
    assert_ne!(Theme::Dark, Theme::Light);
}

#[test]
fn test_app_config_shape() {
    let config = AppConfig {
        version: "1".to_string(),
        app: AppSettings {
            theme: "dark".to_string(),
            language: "pt-BR".to_string(),
            auto_save: true,
            auto_save_interval: 60,
        },
        engine: trading_core::app_config::EngineConnSettings {
            host: "127.0.0.1".to_string(),
            port: 50051,
        },
        chart: ChartConfig {
            chart_type: "candlestick".to_string(),
            candle: CandleStyle {
                bullish_color: "#26a69a".to_string(),
                bearish_color: "#ef5350".to_string(),
                border_width: 1,
                wick_width: 1,
            },
            background: "#1e1e1e".to_string(),
            grid: GridStyle {
                color: "#333".to_string(),
                enabled: true,
                style: "dashed".to_string(),
            },
            crosshair: CrosshairStyle {
                enabled: true,
                color: "#999".to_string(),
                style: "solid".to_string(),
            },
            time_scale: ScaleStyle {
                visible: true,
                color: "#ccc".to_string(),
                border_color: "#444".to_string(),
                mode: None,
            },
            price_scale: ScaleStyle {
                visible: true,
                color: "#ccc".to_string(),
                border_color: "#444".to_string(),
                mode: Some("normal".to_string()),
            },
        },
        indicators: IndicatorDefaults {
            sma: IndicatorSetting {
                enabled: true,
                periods: vec![20, 50],
                colors: vec!["#FFC107".to_string()],
                line_width: 2,
            },
            ema: IndicatorSetting {
                enabled: false,
                periods: vec![9],
                colors: vec!["#03A9F4".to_string()],
                line_width: 2,
            },
            rsi: RsiSetting {
                enabled: false,
                period: 14,
                overbought: 70,
                oversold: 30,
                color: "#9C27B0".to_string(),
            },
        },
        data: DataSettings {
            csv_delimiter: ";".to_string(),
            decimal_separator: ",".to_string(),
            thousand_separator: ".".to_string(),
            date_format: "dd/MM/yyyy".to_string(),
            time_format: "HH:mm:ss".to_string(),
        },
        shortcuts: Shortcuts {
            command_palette: "ctrl+shift+p".to_string(),
            load_csv: "ctrl+o".to_string(),
            save_project: "ctrl+s".to_string(),
            exit: "ctrl+q".to_string(),
            zoom_in: "ctrl+=".to_string(),
            zoom_out: "ctrl+-".to_string(),
            reset_zoom: "ctrl+0".to_string(),
        },
    };
    assert_eq!(config.indicators.sma.periods[0], 20);
    assert_eq!(config.indicators.rsi.period, 14);
    assert_eq!(config.data.csv_delimiter, ";");
}

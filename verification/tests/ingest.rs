//! The candle record ingestor on whole sources.

use trading_core::parse_datetime;
use trading_core::BrazilianCsvParser;

#[test]
fn test_load_candles_from_csv_valid_data() {
    let csv_content = "\
Ativo;Data;Hora;Abertura;Máximo;Mínimo;Fechamento;Volume;Quantidade
WINFUT;30/12/2024;18:20:00;124.080;124.090;123.938;123.983;600.822.115,84;24.228
PETR4;02/01/2023;10:00:00;23,50;23,80;23,40;23,75;1.000.000,00;1000";
    let candles = BrazilianCsvParser::load_candles_from_csv(csv_content, "FALLBACK").unwrap();

    assert_eq!(candles.len(), 2);

    assert_eq!(candles[0].symbol, "WINFUT");
    assert_eq!(
        candles[0].timestamp,
        parse_datetime("30/12/2024", "18:20:00").unwrap().timestamp_millis()
    );
    assert_eq!(candles[0].open, 124_080_000_000);
    assert_eq!(candles[0].high, 124_090_000_000);
    assert_eq!(candles[0].low, 123_938_000_000);
    assert_eq!(candles[0].close, 123_983_000_000);
    assert_eq!(candles[0].volume, 600_822_115_840_000);
    assert_eq!(candles[0].trades, 24228);

    assert_eq!(candles[1].symbol, "PETR4");
    assert_eq!(candles[1].open, 23_500_000);
    assert_eq!(candles[1].volume, 1_000_000_000_000);
    assert_eq!(candles[1].trades, 1000);
}

#[test]
fn test_load_candles_from_csv_empty_file() {
    let csv_content = "Ativo;Data;Hora;Abertura;Máximo;Mínimo;Fechamento;Volume;Quantidade";
    let candles = BrazilianCsvParser::load_candles_from_csv(csv_content, "FALLBACK").unwrap();
    assert!(candles.is_empty());
}

#[test]
fn test_load_candles_from_csv_missing_field() {
    let csv_content = "\
Ativo;Data;Hora;Abertura;Máximo;Mínimo;Fechamento;Volume
WINFUT;30/12/2024;18:20:00;124.080;124.090;123.938;123.983;600.822.115,84";
    let result = BrazilianCsvParser::load_candles_from_csv(csv_content, "FALLBACK");
    assert!(result.is_err());
    assert!(result.unwrap_err().message().contains("Missing 'Quantidade' field"));
}

#[test]
fn test_load_candles_from_csv_invalid_data_format() {
    let csv_content = "\
Ativo;Data;Hora;Abertura;Máximo;Mínimo;Fechamento;Volume;Quantidade
WINFUT;30/12/2024;18:20:00;invalid;124.090;123.938;123.983;600.822.115,84;24.228";
    let result = BrazilianCsvParser::load_candles_from_csv(csv_content, "FALLBACK");
    assert!(result.is_err());
    assert!(result.unwrap_err().message().contains("Error parsing 'Abertura'"));
}

#[test]
fn test_load_candles_reordered_columns() {
    let csv_content = "\
Data;Hora;Quantidade;Volume;Fechamento;Mínimo;Máximo;Abertura;Ativo
02/01/2023;10:00:00;7;100,00;4,00;2,00;5,00;3,00;PETR4";
    let candles = BrazilianCsvParser::load_candles_from_csv(csv_content, "FALLBACK").unwrap();
    assert_eq!(candles.len(), 1);
    assert_eq!(candles[0].symbol, "PETR4");
    assert_eq!(candles[0].open, 3_000_000);
    assert_eq!(candles[0].high, 5_000_000);
    assert_eq!(candles[0].low, 2_000_000);
    assert_eq!(candles[0].close, 4_000_000);
    assert_eq!(candles[0].volume, 100_000_000);
    assert_eq!(candles[0].trades, 7);
}

#[test]
fn test_load_candles_symbol_fallback() {
    // No Ativo column at all: the caller's default stands in.
    let csv_content = "\
Data;Hora;Abertura;Máximo;Mínimo;Fechamento;Volume;Quantidade
02/01/2023;10:00:00;1,00;1,00;1,00;1,00;1,00;1";
    let candles = BrazilianCsvParser::load_candles_from_csv(csv_content, "FALLBACK").unwrap();
    assert_eq!(candles[0].symbol, "FALLBACK");

    // An empty Ativo value falls back as well.
    let csv_content2 = "\
Ativo;Data;Hora;Abertura;Máximo;Mínimo;Fechamento;Volume;Quantidade
;02/01/2023;10:00:00;1,00;1,00;1,00;1,00;1,00;1";
    let candles2 = BrazilianCsvParser::load_candles_from_csv(csv_content2, "FALLBACK").unwrap();
    assert_eq!(candles2[0].symbol, "FALLBACK");
}

#[test]
fn test_load_candles_wrong_field_count() {
    let csv_content = "\
Ativo;Data;Hora;Abertura;Máximo;Mínimo;Fechamento;Volume;Quantidade
WINFUT;30/12/2024;18:20:00;NOT_A_NUMBER";
    let result = BrazilianCsvParser::load_candles_from_csv(csv_content, "WINFUT");
    assert!(result.is_err());
    let msg = result.unwrap_err().message();
    assert!(msg.contains("CSV parsing system error"));
    assert!(msg.to_lowercase().contains("fields"));
    assert!(msg.to_lowercase().contains("header"));
}

#[test]
fn test_load_candles_line_number_in_error() {
    let csv_content = "\
Ativo;Data;Hora;Abertura;Máximo;Mínimo;Fechamento;Volume;Quantidade
WINFUT;30/12/2024;18:20:00;1,00;1,00;1,00;1,00;1,00;1
WINFUT;31/12/2024;18:20:00;1,00;1,00;1,00;1,00;1,00;bad";
    let result = BrazilianCsvParser::load_candles_from_csv(csv_content, "WINFUT");
    let msg = result.unwrap_err().message();
    assert!(msg.contains("Quantidade"));
    assert!(msg.contains("at line 3"));
}

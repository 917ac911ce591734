//! The candle record ingestor: semicolon-delimited text with a named
//! header row, columns matched by name rather than position.
//!
//! The expected columns are `Ativo` (symbol, optional per record),
//! `Data`, `Hora`, `Abertura`, `Máximo`, `Mínimo`, `Fechamento`,
//! `Volume` and `Quantidade`, in any order. Records come back in source
//! order, not yet sorted or deduplicated — that is the store's job.

use vstd::prelude::*;

use crate::candle::Candle;
use crate::datetime::civil_millis;
use crate::datetime::date_day;
use crate::datetime::date_err_detail;
use crate::datetime::date_month;
use crate::datetime::date_year;
use crate::datetime::parse_datetime;
use crate::datetime::time_err_detail;
use crate::datetime::time_hour;
use crate::datetime::time_minute;
use crate::datetime::time_second;
use crate::datetime::valid_date_str;
use crate::datetime::valid_time_str;
use crate::decimal::decimal_err_detail;
use crate::decimal::decimal_micros;
use crate::decimal::decimal_parses;
use crate::decimal::parse_decimal;
use crate::decimal::parse_trades;
use crate::decimal::parse_volume;
use crate::decimal::trades_val;
use crate::decimal::valid_trades;
use crate::error::EngineError;
use crate::text::dec_rep;
use crate::text::split_char;
use crate::text::split_on;
use crate::text::str_eq;
use crate::text::u64_to_string;

verus! {

/// A line with one trailing carriage return removed.
pub open spec fn strip_cr(l: Seq<char>) -> Seq<char> {
    if l.len() > 0 && l.last() == '\r' {
        l.drop_last()
    } else {
        l
    }
}

/// The given lines with carriage returns stripped and empty lines
/// dropped.
pub open spec fn clean_lines(ls: Seq<Seq<char>>) -> Seq<Seq<char>>
    decreases ls.len(),
{
    if ls.len() == 0 {
        Seq::empty()
    } else if strip_cr(ls.last()).len() > 0 {
        clean_lines(ls.drop_last()).push(strip_cr(ls.last()))
    } else {
        clean_lines(ls.drop_last())
    }
}

/// The non-empty lines of the source text, header first.
pub open spec fn data_lines(content: Seq<char>) -> Seq<Seq<char>> {
    clean_lines(split_on(content, '\n'))
}

/// The first header position carrying `name`, or the header length when
/// the column is not declared.
pub open spec fn col_pos(hs: Seq<Seq<char>>, name: Seq<char>) -> int
    decreases hs.len(),
{
    if hs.len() == 0 {
        0
    } else if hs[0] == name {
        0
    } else {
        1 + col_pos(hs.drop_first(), name)
    }
}

/// The record's value under the named column: absent when the header
/// does not declare the column or the record is too short.
pub open spec fn field_of(hs: Seq<Seq<char>>, rs: Seq<Seq<char>>, name: Seq<char>) -> Option<
    Seq<char>,
> {
    let p = col_pos(hs, name);
    if p < hs.len() && p < rs.len() {
        Some(rs[p])
    } else {
        None
    }
}

/// The record's symbol: the `Ativo` value when present and non-empty,
/// else the caller's default.
pub open spec fn symbol_of(hs: Seq<Seq<char>>, rs: Seq<Seq<char>>, default: Seq<char>) -> Seq<
    char,
> {
    match field_of(hs, rs, "Ativo"@) {
        Some(s) => if s.len() > 0 {
            s
        } else {
            default
        },
        None => default,
    }
}

/// Whether every mandatory column has a value in this record.
pub open spec fn fields_present(hs: Seq<Seq<char>>, rs: Seq<Seq<char>>) -> bool {
    &&& field_of(hs, rs, "Data"@) is Some
    &&& field_of(hs, rs, "Hora"@) is Some
    &&& field_of(hs, rs, "Abertura"@) is Some
    &&& field_of(hs, rs, "Máximo"@) is Some
    &&& field_of(hs, rs, "Mínimo"@) is Some
    &&& field_of(hs, rs, "Fechamento"@) is Some
    &&& field_of(hs, rs, "Volume"@) is Some
    &&& field_of(hs, rs, "Quantidade"@) is Some
}

/// The first mandatory column missing from this record, in the order the
/// columns are read; the empty sequence when none is missing.
pub open spec fn first_missing(hs: Seq<Seq<char>>, rs: Seq<Seq<char>>) -> Seq<char> {
    if field_of(hs, rs, "Data"@) is None {
        "Data"@
    } else if field_of(hs, rs, "Hora"@) is None {
        "Hora"@
    } else if field_of(hs, rs, "Abertura"@) is None {
        "Abertura"@
    } else if field_of(hs, rs, "Máximo"@) is None {
        "Máximo"@
    } else if field_of(hs, rs, "Mínimo"@) is None {
        "Mínimo"@
    } else if field_of(hs, rs, "Fechamento"@) is None {
        "Fechamento"@
    } else if field_of(hs, rs, "Volume"@) is None {
        "Volume"@
    } else if field_of(hs, rs, "Quantidade"@) is None {
        "Quantidade"@
    } else {
        Seq::empty()
    }
}

/// Whether every field value of this record parses.
pub open spec fn values_ok(hs: Seq<Seq<char>>, rs: Seq<Seq<char>>) -> bool {
    &&& valid_date_str(field_of(hs, rs, "Data"@)->Some_0)
    &&& valid_time_str(field_of(hs, rs, "Hora"@)->Some_0)
    &&& decimal_parses(field_of(hs, rs, "Abertura"@)->Some_0)
    &&& decimal_parses(field_of(hs, rs, "Máximo"@)->Some_0)
    &&& decimal_parses(field_of(hs, rs, "Mínimo"@)->Some_0)
    &&& decimal_parses(field_of(hs, rs, "Fechamento"@)->Some_0)
    &&& decimal_parses(field_of(hs, rs, "Volume"@)->Some_0)
    &&& valid_trades(field_of(hs, rs, "Quantidade"@)->Some_0)
    &&& trades_val(field_of(hs, rs, "Quantidade"@)->Some_0) <= u32::MAX
}

/// Whether this record yields a candle.
pub open spec fn row_ok(hs: Seq<Seq<char>>, rs: Seq<Seq<char>>) -> bool {
    fields_present(hs, rs) && values_ok(hs, rs)
}

/// The timestamp of this record's candle, in milliseconds since the Unix
/// epoch.
pub open spec fn row_ts(hs: Seq<Seq<char>>, rs: Seq<Seq<char>>) -> int {
    let d = field_of(hs, rs, "Data"@)->Some_0;
    let t = field_of(hs, rs, "Hora"@)->Some_0;
    civil_millis(
        date_year(d),
        date_month(d),
        date_day(d),
        time_hour(t),
        time_minute(t),
        time_second(t),
    )
}

/// A price field of this record's candle, in millionths of a unit.
pub open spec fn row_price(hs: Seq<Seq<char>>, rs: Seq<Seq<char>>, name: Seq<char>) -> int {
    decimal_micros(field_of(hs, rs, name)->Some_0)
}

/// The trade count of this record's candle.
pub open spec fn row_trades(hs: Seq<Seq<char>>, rs: Seq<Seq<char>>) -> int {
    trades_val(field_of(hs, rs, "Quantidade"@)->Some_0)
}

/// The error detail reported for this record, read at line `line`: the
/// first failure among, in order, a missing mandatory column, an
/// unparsable date or time, an unparsable price or volume, and an
/// unparsable trade count.
pub open spec fn row_err_detail(
    hs: Seq<Seq<char>>,
    rs: Seq<Seq<char>>,
    line: int,
) -> Seq<char> {
    if !fields_present(hs, rs) {
        "Missing '"@ + first_missing(hs, rs) + "' field in CSV record at line "@ + dec_rep(
            line,
        )
    } else if !valid_date_str(field_of(hs, rs, "Data"@)->Some_0) {
        "CSV data format error: "@ + date_err_detail(field_of(hs, rs, "Data"@)->Some_0)
            + " at line "@ + dec_rep(line)
    } else if !valid_time_str(field_of(hs, rs, "Hora"@)->Some_0) {
        "CSV data format error: "@ + time_err_detail(field_of(hs, rs, "Hora"@)->Some_0)
            + " at line "@ + dec_rep(line)
    } else if !decimal_parses(field_of(hs, rs, "Abertura"@)->Some_0) {
        price_err_detail(hs, rs, "Abertura"@, line)
    } else if !decimal_parses(field_of(hs, rs, "Máximo"@)->Some_0) {
        price_err_detail(hs, rs, "Máximo"@, line)
    } else if !decimal_parses(field_of(hs, rs, "Mínimo"@)->Some_0) {
        price_err_detail(hs, rs, "Mínimo"@, line)
    } else if !decimal_parses(field_of(hs, rs, "Fechamento"@)->Some_0) {
        price_err_detail(hs, rs, "Fechamento"@, line)
    } else if !decimal_parses(field_of(hs, rs, "Volume"@)->Some_0) {
        price_err_detail(hs, rs, "Volume"@, line)
    } else {
        "Error parsing 'Quantidade' "@ + field_of(hs, rs, "Quantidade"@)->Some_0
            + " as u32 at line "@ + dec_rep(line)
    }
}

/// The error detail for one unparsable price column.
pub open spec fn price_err_detail(
    hs: Seq<Seq<char>>,
    rs: Seq<Seq<char>>,
    name: Seq<char>,
    line: int,
) -> Seq<char> {
    "Error parsing '"@ + name + "': "@ + "CSV data format error: "@ + decimal_err_detail(
        field_of(hs, rs, name)->Some_0,
    ) + " at line "@ + dec_rep(line)
}

/// The error detail when a record's field count differs from the
/// header's.
pub open spec fn framing_err_detail(rlen: int, hlen: int, line: int) -> Seq<char> {
    "record at line "@ + dec_rep(line) + " has "@ + dec_rep(rlen)
        + " fields, but the header has "@ + dec_rep(hlen) + " fields"@
}

/// Reads candle records out of semicolon-delimited text.
pub struct BrazilianCsvParser;

impl BrazilianCsvParser {
    /// The record's value under the named column, or `None` when the
    /// header does not declare it or the record is too short.
    fn get_field<'a>(
        record: &Vec<&'a str>,
        headers: &Vec<&str>,
        name: &str,
    ) -> (r: Option<&'a str>)
        ensures
            ({
                let hs = headers@.map_values(|p: &str| p@);
                let rs = record@.map_values(|p: &str| p@);
                match r {
                    Some(s) => field_of(hs, rs, name@) == Some(s@),
                    None => field_of(hs, rs, name@) is None,
                }
            }),
    {
        let ghost hs = headers@.map_values(|p: &str| p@);
        let ghost rs = record@.map_values(|p: &str| p@);
        let n = headers.len();
        let mut j: usize = 0;
        while j < n
            invariant
                j <= n,
                n == headers@.len(),
                hs == headers@.map_values(|p: &str| p@),
                rs == record@.map_values(|p: &str| p@),
                forall|k: int| 0 <= k < j ==> #[trigger] hs[k] != name@,
            decreases n - j,
        {
            if str_eq(headers[j], name) {
                proof {
                    lemma_col_pos_at(hs, name@, j as int);
                }
                if j < record.len() {
                    return Some(record[j]);
                } else {
                    return None;
                }
            }
            j += 1;
        }
        proof {
            lemma_col_pos_at(hs, name@, n as int);
        }
        None
    }
}

proof fn lemma_col_pos_at(hs: Seq<Seq<char>>, name: Seq<char>, i: int)
    requires
        0 <= i <= hs.len(),
        forall|k: int| 0 <= k < i ==> #[trigger] hs[k] != name,
        i < hs.len() ==> hs[i] == name,
    ensures
        col_pos(hs, name) == i,
    decreases i,
{
    if i > 0 {
        assert(hs[0] != name);
        lemma_col_pos_at(hs.drop_first(), name, i - 1);
    }
}


/// Whether the header declares `;`-separated fields that record `i`
/// matches in count and content.
pub open spec fn row_accepted(ls: Seq<Seq<char>>, i: int) -> bool {
    let hs = split_on(ls[0], ';');
    let rs = split_on(ls[i], ';');
    rs.len() == hs.len() && row_ok(hs, rs)
}

/// Whether candle `c` is the record read from line `i` of `ls`.
pub open spec fn candle_matches(
    ls: Seq<Seq<char>>,
    i: int,
    c: Candle,
    default: Seq<char>,
) -> bool {
    let hs = split_on(ls[0], ';');
    let rs = split_on(ls[i], ';');
    &&& c.symbol@ == symbol_of(hs, rs, default)
    &&& c.timestamp == row_ts(hs, rs)
    &&& c.open == row_price(hs, rs, "Abertura"@)
    &&& c.high == row_price(hs, rs, "Máximo"@)
    &&& c.low == row_price(hs, rs, "Mínimo"@)
    &&& c.close == row_price(hs, rs, "Fechamento"@)
    &&& c.volume == row_price(hs, rs, "Volume"@)
    &&& c.trades == row_trades(hs, rs)
}

/// The message for a missing mandatory column.
fn missing_msg(name: &str, line: usize) -> (r: String)
    ensures
        r@ == "Missing '"@ + name@ + "' field in CSV record at line "@ + dec_rep(
            line as int,
        ),
{
    let mut m = String::from_str("Missing '");
    m.append(name);
    m.append("' field in CSV record at line ");
    m.append(u64_to_string(line as u64).as_str());
    m
}

/// Appends the line-number suffix to a wrapped error message.
fn at_line(mut m: String, line: usize) -> (r: String)
    ensures
        r@ == m@ + " at line "@ + dec_rep(line as int),
{
    m.append(" at line ");
    m.append(u64_to_string(line as u64).as_str());
    m
}

/// The message for an unparsable price or volume column.
fn price_msg(name: &str, inner: &EngineError, line: usize) -> (r: String)
    ensures
        r@ == "Error parsing '"@ + name@ + "': "@ + inner.message_spec() + " at line "@
            + dec_rep(line as int),
{
    let mut m = String::from_str("Error parsing '");
    m.append(name);
    m.append("': ");
    m.append(inner.message().as_str());
    at_line(m, line)
}

/// The message for an unparsable trade count.
fn trades_msg(value: &str, line: usize) -> (r: String)
    ensures
        r@ == "Error parsing 'Quantidade' "@ + value@ + " as u32 at line "@ + dec_rep(
            line as int,
        ),
{
    let mut m = String::from_str("Error parsing 'Quantidade' ");
    m.append(value);
    m.append(" as u32 at line ");
    m.append(u64_to_string(line as u64).as_str());
    m
}

/// The message for a record whose field count differs from the header's.
fn framing_msg(rlen: usize, hlen: usize, line: usize) -> (r: String)
    ensures
        r@ == framing_err_detail(rlen as int, hlen as int, line as int),
{
    let mut m = String::from_str("record at line ");
    m.append(u64_to_string(line as u64).as_str());
    m.append(" has ");
    m.append(u64_to_string(rlen as u64).as_str());
    m.append(" fields, but the header has ");
    m.append(u64_to_string(hlen as u64).as_str());
    m.append(" fields");
    m
}

impl BrazilianCsvParser {
    /// Turns one record into a candle, or the error naming the first
    /// failing field and the record's 1-based source line.
    fn parse_record(
        headers: &Vec<&str>,
        record: &Vec<&str>,
        default_symbol: &str,
        line_num: usize,
    ) -> (r: Result<Candle, EngineError>)
        ensures
            ({
                let hs = headers@.map_values(|p: &str| p@);
                let rs = record@.map_values(|p: &str| p@);
                &&& (r is Ok <==> row_ok(hs, rs))
                &&& (r matches Ok(c) ==> {
                    &&& c.symbol@ == symbol_of(hs, rs, default_symbol@)
                    &&& c.timestamp == row_ts(hs, rs)
                    &&& c.open == row_price(hs, rs, "Abertura"@)
                    &&& c.high == row_price(hs, rs, "Máximo"@)
                    &&& c.low == row_price(hs, rs, "Mínimo"@)
                    &&& c.close == row_price(hs, rs, "Fechamento"@)
                    &&& c.volume == row_price(hs, rs, "Volume"@)
                    &&& c.trades == row_trades(hs, rs)
                })
                &&& (r matches Err(e) ==> e matches EngineError::CsvDataFormatError(m)
                    && m@ == row_err_detail(hs, rs, line_num as int))
            }),
    {
        let ghost hs = headers@.map_values(|p: &str| p@);
        let ghost rs = record@.map_values(|p: &str| p@);
        let symbol: &str = match Self::get_field(record, headers, "Ativo") {
            Some(s) => if s.unicode_len() > 0 {
                s
            } else {
                default_symbol
            },
            None => default_symbol,
        };
        let date_str = match Self::get_field(record, headers, "Data") {
            Some(s) => s,
            None => {
                return Err(EngineError::CsvDataFormatError(missing_msg("Data", line_num)));
            },
        };
        let time_str = match Self::get_field(record, headers, "Hora") {
            Some(s) => s,
            None => {
                return Err(EngineError::CsvDataFormatError(missing_msg("Hora", line_num)));
            },
        };
        let open_str = match Self::get_field(record, headers, "Abertura") {
            Some(s) => s,
            None => {
                return Err(
                    EngineError::CsvDataFormatError(missing_msg("Abertura", line_num)),
                );
            },
        };
        let high_str = match Self::get_field(record, headers, "Máximo") {
            Some(s) => s,
            None => {
                return Err(
                    EngineError::CsvDataFormatError(missing_msg("Máximo", line_num)),
                );
            },
        };
        let low_str = match Self::get_field(record, headers, "Mínimo") {
            Some(s) => s,
            None => {
                return Err(
                    EngineError::CsvDataFormatError(missing_msg("Mínimo", line_num)),
                );
            },
        };
        let close_str = match Self::get_field(record, headers, "Fechamento") {
            Some(s) => s,
            None => {
                return Err(
                    EngineError::CsvDataFormatError(missing_msg("Fechamento", line_num)),
                );
            },
        };
        let volume_str = match Self::get_field(record, headers, "Volume") {
            Some(s) => s,
            None => {
                return Err(
                    EngineError::CsvDataFormatError(missing_msg("Volume", line_num)),
                );
            },
        };
        let trades_str = match Self::get_field(record, headers, "Quantidade") {
            Some(s) => s,
            None => {
                return Err(
                    EngineError::CsvDataFormatError(missing_msg("Quantidade", line_num)),
                );
            },
        };
        let dt = match parse_datetime(date_str, time_str) {
            Ok(d) => d,
            Err(e) => {
                let msg = at_line(e.message(), line_num);
                return Err(EngineError::CsvDataFormatError(msg));
            },
        };
        let open = match parse_decimal(open_str) {
            Ok(v) => v,
            Err(e) => {
                return Err(
                    EngineError::CsvDataFormatError(price_msg("Abertura", &e, line_num)),
                );
            },
        };
        let high = match parse_decimal(high_str) {
            Ok(v) => v,
            Err(e) => {
                return Err(
                    EngineError::CsvDataFormatError(price_msg("Máximo", &e, line_num)),
                );
            },
        };
        let low = match parse_decimal(low_str) {
            Ok(v) => v,
            Err(e) => {
                return Err(
                    EngineError::CsvDataFormatError(price_msg("Mínimo", &e, line_num)),
                );
            },
        };
        let close = match parse_decimal(close_str) {
            Ok(v) => v,
            Err(e) => {
                return Err(
                    EngineError::CsvDataFormatError(price_msg("Fechamento", &e, line_num)),
                );
            },
        };
        let volume = match parse_volume(volume_str) {
            Ok(v) => v,
            Err(e) => {
                return Err(
                    EngineError::CsvDataFormatError(price_msg("Volume", &e, line_num)),
                );
            },
        };
        let trades = match parse_trades(trades_str) {
            Some(v) => v,
            None => {
                return Err(
                    EngineError::CsvDataFormatError(trades_msg(trades_str, line_num)),
                );
            },
        };
        Ok(
            Candle {
                symbol: symbol.to_owned(),
                timestamp: dt.timestamp_millis(),
                open,
                high,
                low,
                close,
                volume,
                trades,
            },
        )
    }

    /// Reads candles out of semicolon-delimited text with a named header
    /// row, in source order. The first non-empty line is the header;
    /// the record on the i-th following line is reported against source
    /// line `i + 1`. Fails on the first record whose field count differs
    /// from the header's or whose fields do not parse; text without a
    /// header line yields no candles.
    pub fn load_candles_from_csv(content: &str, default_symbol: &str) -> (r: Result<
        Vec<Candle>,
        EngineError,
    >)
        ensures
            ({
                let ls = data_lines(content@);
                &&& (r is Ok <==> (forall|i: int| 1 <= i < ls.len() ==> row_accepted(ls, i)))
                &&& (r matches Ok(v) ==> {
                    &&& v@.len() == (if ls.len() == 0 {
                        0int
                    } else {
                        ls.len() - 1
                    })
                    &&& forall|j: int|
                        0 <= j < v@.len() ==> candle_matches(
                            ls,
                            j + 1,
                            #[trigger] v@[j],
                            default_symbol@,
                        )
                })
                &&& (r matches Err(e) ==> exists|b: int|
                    {
                        &&& 1 <= b < ls.len()
                        &&& (forall|j: int| 1 <= j < b ==> row_accepted(ls, j))
                        &&& !row_accepted(ls, b)
                        &&& if split_on(ls[b], ';').len() != split_on(ls[0], ';').len() {
                            e matches EngineError::CsvSystemError(m) && m@
                                == framing_err_detail(
                                split_on(ls[b], ';').len() as int,
                                split_on(ls[0], ';').len() as int,
                                b + 1,
                            )
                        } else {
                            e matches EngineError::CsvDataFormatError(m) && m@
                                == row_err_detail(
                                split_on(ls[0], ';'),
                                split_on(ls[b], ';'),
                                b + 1,
                            )
                        }
                    })
            }),
    {
        let ghost ls = data_lines(content@);
        let raw = split_char(content, '\n');
        let mut lines: Vec<&str> = Vec::new();
        let rn = raw.len();
        let mut i: usize = 0;
        proof {
            assert(raw@.map_values(|p: &str| p@).take(0) =~= Seq::<Seq<char>>::empty());
            assert(lines@.map_values(|p: &str| p@) =~= clean_lines(
                raw@.map_values(|p: &str| p@).take(0),
            ));
        }
        while i < rn
            invariant
                i <= rn,
                rn == raw@.len(),
                raw@.map_values(|p: &str| p@) == split_on(content@, '\n'),
                lines@.map_values(|p: &str| p@) == clean_lines(
                    raw@.map_values(|p: &str| p@).take(i as int),
                ),
            decreases rn - i,
        {
            let ghost rv = raw@.map_values(|p: &str| p@);
            let l = raw[i];
            let n = l.unicode_len();
            proof {
                assert(rv.take(i + 1).drop_last() =~= rv.take(i as int));
                assert(rv.take(i + 1).last() == l@);
            }
            let stripped: &str = if n > 0 && l.get_char(n - 1) == '\r' {
                let st = l.substring_char(0, n - 1);
                proof {
                    assert(st@ =~= strip_cr(l@));
                }
                st
            } else {
                l
            };
            if stripped.unicode_len() > 0 {
                lines.push(stripped);
                proof {
                    assert((lines@).map_values(|p: &str| p@) =~= clean_lines(
                        rv.take(i as int),
                    ).push(strip_cr(l@)));
                }
            }
            i += 1;
        }
        proof {
            assert(raw@.map_values(|p: &str| p@).take(rn as int) =~= raw@.map_values(
                |p: &str| p@,
            ));
            assert(lines@.map_values(|p: &str| p@) == ls);
        }
        if lines.len() == 0 {
            return Ok(Vec::new());
        }
        let headers = split_char(lines[0], ';');
        proof {
            assert(lines@.map_values(|p: &str| p@)[0] == lines@[0]@);
            assert(headers@.map_values(|p: &str| p@) == split_on(ls[0], ';'));
        }
        let hn = headers.len();
        let ln = lines.len();
        let mut candles: Vec<Candle> = Vec::new();
        let mut idx: usize = 1;
        while idx < ln
            invariant
                1 <= idx <= ln,
                ln == lines@.len(),
                ls == data_lines(content@),
                lines@.map_values(|p: &str| p@) == ls,
                headers@.map_values(|p: &str| p@) == split_on(ls[0], ';'),
                hn == headers@.len(),
                candles@.len() == idx - 1,
                forall|j: int| 1 <= j < idx ==> row_accepted(ls, j),
                forall|j: int|
                    0 <= j < idx - 1 ==> candle_matches(
                        ls,
                        j + 1,
                        #[trigger] candles@[j],
                        default_symbol@,
                    ),
            decreases ln - idx,
        {
            let record = split_char(lines[idx], ';');
            proof {
                assert(lines@.map_values(|p: &str| p@)[idx as int] == lines@[idx as int]@);
                assert(record@.map_values(|p: &str| p@) == split_on(ls[idx as int], ';'));
            }
            if record.len() != hn {
                let m = framing_msg(record.len(), hn, idx + 1);
                proof {
                    assert(!row_accepted(ls, idx as int));
                }
                return Err(EngineError::CsvSystemError(m));
            }
            match Self::parse_record(&headers, &record, default_symbol, idx + 1) {
                Ok(c) => {
                    candles.push(c);
                },
                Err(e) => {
                    proof {
                        assert(!row_accepted(ls, idx as int));
                    }
                    return Err(e);
                },
            }
            idx += 1;
        }
        Ok(candles)
    }
}

} // verus!

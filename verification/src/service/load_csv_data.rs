//! Ingestion into the store: parse a candle source, then merge the
//! records into the symbol's series under the trading timeframe.

use vstd::prelude::*;

use crate::candle::Candle;
use crate::candle::TimeFrame;
use crate::csv_parser::candle_matches;
use crate::csv_parser::data_lines;
use crate::csv_parser::row_accepted;
use crate::csv_parser::BrazilianCsvParser;
use crate::error::EngineError;
use crate::service::LoadCsvResponse;
use crate::store::merge_spec;
use crate::store::MarketDataStore;
use crate::text::dec_rep;
use crate::text::u64_to_string;

verus! {

/// The report after a successful load.
pub open spec fn loaded_msg(n: int, sym: Seq<char>) -> Seq<char> {
    "Loaded "@ + dec_rep(n) + " candles for symbol "@ + sym
}

/// Parses the source text and merges every record into the symbol's
/// series under the trading timeframe (one day). On a parse failure
/// nothing is stored — ingestion and storage are separate steps and
/// there are no partial writes.
pub fn handle_load_csv_data(content: &str, symbol: &str, store: &mut MarketDataStore) -> (r:
    Result<LoadCsvResponse, EngineError>)
    requires
        old(store).wf(),
    ensures
        final(store).wf(),
        r is Ok <==> (forall|i: int|
            1 <= i < data_lines(content@).len() ==> row_accepted(data_lines(content@), i)),
        r is Err ==> *final(store) == *old(store),
        r matches Ok(resp) ==> ({
            let ls = data_lines(content@);
            let count: int = if ls.len() == 0 {
                0
            } else {
                ls.len() - 1
            };
            &&& resp.success
            &&& resp.candles_loaded == count
            &&& resp.message@ == loaded_msg(count, symbol@)
            &&& final(store).has_series(symbol@, TimeFrame::Day1)
            &&& exists|cs: Seq<Candle>|
                {
                    &&& cs.len() == count
                    &&& (forall|j: int|
                        0 <= j < cs.len() ==> candle_matches(
                            ls,
                            j + 1,
                            #[trigger] cs[j],
                            symbol@,
                        ))
                    &&& final(store).series(symbol@, TimeFrame::Day1) == merge_spec(
                        old(store).series(symbol@, TimeFrame::Day1),
                        cs,
                    )
                }
            &&& (forall|s2: Seq<char>, t2: TimeFrame|
                !(s2 == symbol@ && t2 == TimeFrame::Day1) ==> #[trigger] final(store).has_series(
                    s2,
                    t2,
                ) == old(store).has_series(s2, t2))
            &&& (forall|s2: Seq<char>, t2: TimeFrame|
                !(s2 == symbol@ && t2 == TimeFrame::Day1) ==> #[trigger] final(store).series(
                    s2,
                    t2,
                ) == old(store).series(s2, t2))
        }),
{
    let candles = match BrazilianCsvParser::load_candles_from_csv(content, symbol) {
        Ok(c) => c,
        Err(e) => {
            return Err(e);
        },
    };
    let candles_loaded = candles.len();
    let ghost cs = candles@;
    match store.add_candles(symbol, TimeFrame::Day1, candles) {
        Ok(u) => u,
        Err(e) => {
            return Err(e);
        },
    };
    let mut m = String::from_str("Loaded ");
    m.append(u64_to_string(candles_loaded as u64).as_str());
    m.append(" candles for symbol ");
    m.append(symbol);
    Ok(LoadCsvResponse { success: true, message: m, candles_loaded })
}

} // verus!

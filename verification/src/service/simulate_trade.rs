//! Order simulation against the latest known price bar.
//!
//! Single-shot: a request resolves to a no-data, filled or not-filled
//! outcome. Nothing is mutated — the simulation only reads the store —
//! and a business rejection is a normal response, not an error.

use vstd::prelude::*;

use crate::candle::TimeFrame;
use crate::decimal::price_rep;
use crate::decimal::price_string;
use crate::service::new_order_id;
use crate::service::TradeRequest;
use crate::service::TradeResponse;
use crate::store::lemma_filter_range_unbounded;
use crate::store::MarketDataStore;
use crate::text::dec_rep;
use crate::text::eq_ignore_ascii_case;
use crate::text::to_ascii_upper;
use crate::text::u64_to_string;
use crate::text::upper_seq;

verus! {

/// Whether `s` names a market order, up to ASCII case.
pub open spec fn is_market(s: Seq<char>) -> bool {
    upper_seq(s) == upper_seq("MARKET"@)
}

/// Whether `s` names a limit order, up to ASCII case.
pub open spec fn is_limit(s: Seq<char>) -> bool {
    upper_seq(s) == upper_seq("LIMIT"@)
}

/// Whether `s` names the buy action, up to ASCII case.
pub open spec fn is_buy(s: Seq<char>) -> bool {
    upper_seq(s) == upper_seq("BUY"@)
}

/// Whether `s` names the sell action, up to ASCII case.
pub open spec fn is_sell(s: Seq<char>) -> bool {
    upper_seq(s) == upper_seq("SELL"@)
}

/// The reason given when the store has nothing under the symbol.
pub open spec fn no_data_msg(sym: Seq<char>) -> Seq<char> {
    "No market data available for symbol '"@ + sym
        + "' and timeframe Day1 to simulate trade."@
}

/// The report of a market fill at the latest close.
pub open spec fn market_fill_msg(action: Seq<char>, qty: u64, sym: Seq<char>, price: u64) -> Seq<
    char,
> {
    "Market "@ + upper_seq(action) + " order for "@ + dec_rep(qty as int) + " of "@ + sym
        + " simulated at "@ + price_rep(price as int)
}

/// The report of a limit fill at the limit price.
pub open spec fn limit_fill_msg(side: Seq<char>, qty: u64, sym: Seq<char>, price: u64) -> Seq<
    char,
> {
    "Limit "@ + side + " order for "@ + dec_rep(qty as int) + " of "@ + sym
        + " simulated at "@ + price_rep(price as int)
}

/// The reason a limit buy did not fill: the bar's low stayed above the
/// limit.
pub open spec fn buy_no_fill_msg(sym: Seq<char>, low: u64, limit: u64) -> Seq<char> {
    "Limit BUY order for "@ + sym + " not filled: market low "@ + price_rep(low as int)
        + " did not reach limit price "@ + price_rep(limit as int)
}

/// The reason a limit sell did not fill: the bar's high stayed below the
/// limit.
pub open spec fn sell_no_fill_msg(sym: Seq<char>, high: u64, limit: u64) -> Seq<char> {
    "Limit SELL order for "@ + sym + " not filled: market high "@ + price_rep(high as int)
        + " did not reach limit price "@ + price_rep(limit as int)
}

/// The reason given for a limit order without a limit price.
pub open spec fn no_price_msg() -> Seq<char> {
    "Limit price is required for LIMIT orders."@
}

/// The reason given for an unrecognized buy/sell action, named verbatim.
pub open spec fn bad_action_msg(action: Seq<char>) -> Seq<char> {
    "Unknown action '"@ + action + "' for LIMIT order. Use 'BUY' or 'SELL'."@
}

/// The reason given for an unrecognized order kind, named verbatim.
pub open spec fn bad_kind_msg(kind: Seq<char>) -> Seq<char> {
    "Unsupported order type: '"@ + kind + "'. Use 'MARKET' or 'LIMIT'."@
}

/// Resolves an order against the latest candle stored for the symbol
/// under the trading timeframe (one day). A market order always fills at
/// the latest close for the full quantity; a limit buy fills at the
/// limit exactly when the bar's low reached it, a limit sell exactly
/// when the bar's high reached it. Missing data, a missing limit price
/// and unrecognized words are not-filled outcomes with their reasons. A
/// fresh 36-character correlation identifier is drawn for every call.
pub fn handle_simulate_trade(req: &TradeRequest, store: &MarketDataStore) -> (r:
    TradeResponse)
    requires
        store.wf(),
    ensures
        r.order_id@.len() == 36,
        !r.success ==> r.filled_price == 0 && r.filled_quantity == 0,
        ({
            let ser = store.series(req.symbol@, TimeFrame::Day1);
            let no_data = !store.has_series(req.symbol@, TimeFrame::Day1) || ser.len()
                == 0;
            &&& (no_data ==> !r.success && r.message@ == no_data_msg(req.symbol@))
            &&& (!no_data && is_market(req.order_type@) ==> r.success && r.filled_price
                == ser.last().close && r.filled_quantity == req.quantity && r.message@
                == market_fill_msg(req.action@, req.quantity, req.symbol@, ser.last().close))
            &&& (!no_data && is_limit(req.order_type@) && req.price is None ==> !r.success
                && r.message@ == no_price_msg())
            &&& (!no_data && is_limit(req.order_type@) && req.price is Some ==> {
                let limit = req.price->Some_0;
                &&& (is_buy(req.action@) && ser.last().low <= limit ==> r.success
                    && r.filled_price == limit && r.filled_quantity == req.quantity
                    && r.message@ == limit_fill_msg("BUY"@, req.quantity, req.symbol@, limit))
                &&& (is_buy(req.action@) && ser.last().low > limit ==> !r.success
                    && r.message@ == buy_no_fill_msg(req.symbol@, ser.last().low, limit))
                &&& (!is_buy(req.action@) && is_sell(req.action@) && ser.last().high >= limit
                    ==> r.success && r.filled_price == limit && r.filled_quantity
                    == req.quantity && r.message@ == limit_fill_msg(
                    "SELL"@,
                    req.quantity,
                    req.symbol@,
                    limit,
                ))
                &&& (!is_buy(req.action@) && is_sell(req.action@) && ser.last().high < limit
                    ==> !r.success && r.message@ == sell_no_fill_msg(
                    req.symbol@,
                    ser.last().high,
                    limit,
                ))
                &&& (!is_buy(req.action@) && !is_sell(req.action@) ==> !r.success
                    && r.message@ == bad_action_msg(req.action@))
            })
            &&& (!no_data && !is_market(req.order_type@) && !is_limit(req.order_type@)
                ==> !r.success && r.message@ == bad_kind_msg(req.order_type@))
        }),
{
    let order_id = new_order_id();
    let ghost ser = store.series(req.symbol@, TimeFrame::Day1);
    proof {
        lemma_filter_range_unbounded(ser);
    }
    let candles = match store.get_candles(req.symbol.as_str(), TimeFrame::Day1, None, None) {
        Some(v) => v,
        None => {
            return TradeResponse {
                success: false,
                message: build_no_data_msg(req.symbol.as_str()),
                order_id,
                filled_price: 0,
                filled_quantity: 0,
            };
        },
    };
    if candles.len() == 0 {
        return TradeResponse {
            success: false,
            message: build_no_data_msg(req.symbol.as_str()),
            order_id,
            filled_price: 0,
            filled_quantity: 0,
        };
    }
    let latest = &candles[candles.len() - 1];
    proof {
        assert(*latest == ser.last());
        reveal_strlit("MARKET");
        reveal_strlit("LIMIT");
        reveal_strlit("BUY");
        reveal_strlit("SELL");
        assert(upper_seq("MARKET"@).len() == 6 && upper_seq("LIMIT"@).len() == 5);
        assert(upper_seq("MARKET"@) != upper_seq("LIMIT"@));
        assert(upper_seq("BUY"@).len() == 3 && upper_seq("SELL"@).len() == 4);
        assert(upper_seq("BUY"@) != upper_seq("SELL"@));
    }

    if eq_ignore_ascii_case(req.order_type.as_str(), "MARKET") {
        let price = latest.close;
        let mut m = String::from_str("Market ");
        m.append(to_ascii_upper(req.action.as_str()).as_str());
        m.append(" order for ");
        m.append(u64_to_string(req.quantity).as_str());
        m.append(" of ");
        m.append(req.symbol.as_str());
        m.append(" simulated at ");
        m.append(price_string(price).as_str());
        return TradeResponse {
            success: true,
            message: m,
            order_id,
            filled_price: price,
            filled_quantity: req.quantity,
        };
    }
    if eq_ignore_ascii_case(req.order_type.as_str(), "LIMIT") {
        let limit = match req.price {
            Some(p) => p,
            None => {
                return TradeResponse {
                    success: false,
                    message: String::from_str("Limit price is required for LIMIT orders."),
                    order_id,
                    filled_price: 0,
                    filled_quantity: 0,
                };
            },
        };
        if eq_ignore_ascii_case(req.action.as_str(), "BUY") {
            if latest.low <= limit {
                let m = build_limit_fill_msg("BUY", req.quantity, req.symbol.as_str(), limit);
                return TradeResponse {
                    success: true,
                    message: m,
                    order_id,
                    filled_price: limit,
                    filled_quantity: req.quantity,
                };
            } else {
                let mut m = String::from_str("Limit BUY order for ");
                m.append(req.symbol.as_str());
                m.append(" not filled: market low ");
                m.append(price_string(latest.low).as_str());
                m.append(" did not reach limit price ");
                m.append(price_string(limit).as_str());
                return TradeResponse {
                    success: false,
                    message: m,
                    order_id,
                    filled_price: 0,
                    filled_quantity: 0,
                };
            }
        }
        if eq_ignore_ascii_case(req.action.as_str(), "SELL") {
            if latest.high >= limit {
                let m = build_limit_fill_msg(
                    "SELL",
                    req.quantity,
                    req.symbol.as_str(),
                    limit,
                );
                return TradeResponse {
                    success: true,
                    message: m,
                    order_id,
                    filled_price: limit,
                    filled_quantity: req.quantity,
                };
            } else {
                let mut m = String::from_str("Limit SELL order for ");
                m.append(req.symbol.as_str());
                m.append(" not filled: market high ");
                m.append(price_string(latest.high).as_str());
                m.append(" did not reach limit price ");
                m.append(price_string(limit).as_str());
                return TradeResponse {
                    success: false,
                    message: m,
                    order_id,
                    filled_price: 0,
                    filled_quantity: 0,
                };
            }
        }
        let mut m = String::from_str("Unknown action '");
        m.append(req.action.as_str());
        m.append("' for LIMIT order. Use 'BUY' or 'SELL'.");
        return TradeResponse {
            success: false,
            message: m,
            order_id,
            filled_price: 0,
            filled_quantity: 0,
        };
    }
    let mut m = String::from_str("Unsupported order type: '");
    m.append(req.order_type.as_str());
    m.append("'. Use 'MARKET' or 'LIMIT'.");
    TradeResponse {
        success: false,
        message: m,
        order_id,
        filled_price: 0,
        filled_quantity: 0,
    }
}

/// Builds the no-data reason for a symbol.
fn build_no_data_msg(sym: &str) -> (r: String)
    ensures
        r@ == no_data_msg(sym@),
{
    let mut m = String::from_str("No market data available for symbol '");
    m.append(sym);
    m.append("' and timeframe Day1 to simulate trade.");
    m
}

/// Builds the limit-fill report for one side.
fn build_limit_fill_msg(side: &str, qty: u64, sym: &str, price: u64) -> (r: String)
    ensures
        r@ == limit_fill_msg(side@, qty, sym@, price),
{
    let mut m = String::from_str("Limit ");
    m.append(side);
    m.append(" order for ");
    m.append(u64_to_string(qty).as_str());
    m.append(" of ");
    m.append(sym);
    m.append(" simulated at ");
    m.append(price_string(price).as_str());
    m
}

} // verus!

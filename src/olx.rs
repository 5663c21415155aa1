//! OKX archives: the trade line format and archive addresses.
use vstd::prelude::*;
use crate::date::{Date, date_text};
use crate::price::{price_of, parse_price_in};
use crate::text::{
    chars_of, split_fields, split_ranges, range_texts, u64_of, i64_of, trim_end, parse_u64_in,
    parse_i64_in, trim_end_in, range_is,
};
use crate::trade::{Trade, TradeSide, TradePair, ParseTradeError, TradeFailure, parsed_view};

verus! {

/// The side column: the words `buy` and `sell`.
pub open spec fn side_of(raw: Seq<char>) -> Option<TradeSide> {
    if raw == seq!['b', 'u', 'y'] {
        Some(TradeSide::Buy)
    } else if raw == seq!['s', 'e', 'l', 'l'] {
        Some(TradeSide::Sell)
    } else {
        None
    }
}

/// A trade line: `id,side,_,price,timestamp`, the timestamp column possibly
/// followed by whitespace. Columns are checked in the order id, side, price,
/// timestamp.
pub open spec fn trade_of(row: Seq<char>) -> Result<Trade, TradeFailure> {
    let f = split_fields(row, ',');
    match u64_of(f[0]) {
        Err(e) => Err(TradeFailure::InvalidTradeId(row, e)),
        Ok(id) => if f.len() < 2 {
            Err(TradeFailure::MissingSide)
        } else {
            match side_of(f[1]) {
                None => Err(TradeFailure::InvalidSide(row)),
                Some(side) => if f.len() < 4 {
                    Err(TradeFailure::MissingPrice)
                } else {
                    match price_of(f[3]) {
                        Err(e) => Err(TradeFailure::InvalidPrice(e)),
                        Ok(price) => if f.len() < 5 {
                            Err(TradeFailure::MissingTimestamp)
                        } else {
                            match i64_of(trim_end(f[4])) {
                                Err(e) => Err(TradeFailure::InvalidTimestamp(e)),
                                Ok(timestamp) => Ok(Trade { id, side, price, timestamp }),
                            }
                        },
                    }
                },
            }
        },
    }
}

fn side_in(cs: &Vec<char>, lo: usize, hi: usize) -> (r: Option<TradeSide>)
    requires
        lo <= hi <= cs.len(),
    ensures
        r == side_of(cs@.subrange(lo as int, hi as int)),
{
    assert(['b', 'u', 'y']@ =~= seq!['b', 'u', 'y']);
    assert(['s', 'e', 'l', 'l']@ =~= seq!['s', 'e', 'l', 'l']);
    if range_is(cs, lo, hi, &['b', 'u', 'y']) {
        Some(TradeSide::Buy)
    } else if range_is(cs, lo, hi, &['s', 'e', 'l', 'l']) {
        Some(TradeSide::Sell)
    } else {
        None
    }
}

/// Reads a side column as this exchange writes it.
pub fn parse_side(raw: &str) -> (r: Option<TradeSide>)
    ensures
        r == side_of(raw@),
{
    let cs = chars_of(raw);
    assert(cs@.subrange(0, cs@.len() as int) =~= cs@);
    side_in(&cs, 0, cs.len())
}

/// Reads one line of a trades archive.
pub fn parse_trade(row: String) -> (r: Result<Trade, ParseTradeError>)
    ensures
        parsed_view(r) == trade_of(row@),
        r matches Ok(t) ==> t.price.wf(),
{
    let cs = chars_of(row.as_str());
    let f = split_ranges(&cs, ',');
    let ghost fs = split_fields(row@, ',');
    proof {
        crate::text::lemma_split_nonempty(row@, ',');
        assert(range_texts(cs@, f@).len() == f@.len());
        assert(forall|k: int|
            0 <= k < f@.len() ==> #[trigger] fs[k] == cs@.subrange(f@[k].0 as int, f@[k].1 as int));
    }
    let (lo, hi) = f[0];
    let id = match parse_u64_in(&cs, lo, hi) {
        Ok(id) => id,
        Err(e) => {
            return Err(ParseTradeError::InvalidTradeId(row, e));
        },
    };
    if f.len() < 2 {
        return Err(ParseTradeError::MissingSide);
    }
    let (lo, hi) = f[1];
    let side = match side_in(&cs, lo, hi) {
        Some(s) => s,
        None => {
            return Err(ParseTradeError::InvalidSide(row));
        },
    };
    if f.len() < 4 {
        return Err(ParseTradeError::MissingPrice);
    }
    let (lo, hi) = f[3];
    let price = match parse_price_in(&cs, lo, hi) {
        Ok(p) => p,
        Err(e) => {
            return Err(ParseTradeError::InvalidPrice(e));
        },
    };
    if f.len() < 5 {
        return Err(ParseTradeError::MissingTimestamp);
    }
    let (lo, hi) = f[4];
    let end = trim_end_in(&cs, lo, hi);
    match parse_i64_in(&cs, lo, end) {
        Ok(timestamp) => Ok(Trade { id, side, price, timestamp }),
        Err(e) => Err(ParseTradeError::InvalidTimestamp(e)),
    }
}

pub open spec fn archive_url_text(first: Seq<char>, second: Seq<char>, date: Date) -> Seq<char> {
    "https://static.okx.com/cdn/okex/traderecords/trades/daily/"@ + date_text(date, false)
        + seq!['/'] + first + seq!['-'] + second + "-trades-"@ + date_text(date, true) + ".zip"@
}

/// The address of the daily trades archive of `trade_pair` on `date`.
pub fn trades_archive_url(trade_pair: &TradePair, date: Date) -> (r: String)
    requires
        date.wf(),
    ensures
        r@ == archive_url_text(trade_pair.first@, trade_pair.second@, date),
{
    let mut u = String::from_str("https://static.okx.com/cdn/okex/traderecords/trades/daily/");
    let compact = date.to_text(false);
    u.append(compact.as_str());
    u.append("/");
    u.append(trade_pair.first.as_str());
    u.append("-");
    u.append(trade_pair.second.as_str());
    u.append("-trades-");
    let dashed = date.to_text(true);
    u.append(dashed.as_str());
    u.append(".zip");
    proof {
        reveal_strlit("https://static.okx.com/cdn/okex/traderecords/trades/daily/");
        reveal_strlit("/");
        reveal_strlit("-");
        reveal_strlit("-trades-");
        reveal_strlit(".zip");
        assert(u@ =~= archive_url_text(trade_pair.first@, trade_pair.second@, date));
    }
    u
}

} // verus!

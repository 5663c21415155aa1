//! Binance futures archives: the trade line format, archive addresses and
//! bucket listings.
use vstd::prelude::*;
use crate::date::{Date, date_text};
use crate::price::{price_of, parse_price_in};
use crate::text::{
    chars_of, split_fields, split_ranges, range_texts, u64_of, i64_of, trim_end,
    parse_u64_in, parse_i64_in, trim_end_in, range_is,
};
use crate::trade::{Trade, TradeSide, TradePair, ParseTradeError, TradeFailure, parsed_view};

verus! {

/// The side column: `false` when the buyer made the trade, `true` when the
/// seller did.
pub open spec fn side_of(raw: Seq<char>) -> Option<TradeSide> {
    if raw == seq!['f', 'a', 'l', 's', 'e'] {
        Some(TradeSide::Buy)
    } else if raw == seq!['t', 'r', 'u', 'e'] {
        Some(TradeSide::Sell)
    } else {
        None
    }
}

/// A trade line: `id,price,_,_,timestamp,side`, the side column possibly
/// followed by whitespace. Columns are checked in the order id, price,
/// timestamp, side.
pub open spec fn trade_of(row: Seq<char>) -> Result<Trade, TradeFailure> {
    let f = split_fields(row, ',');
    match u64_of(f[0]) {
        Err(e) => Err(TradeFailure::InvalidTradeId(row, e)),
        Ok(id) => if f.len() < 2 {
            Err(TradeFailure::MissingPrice)
        } else {
            match price_of(f[1]) {
                Err(e) => Err(TradeFailure::InvalidPrice(e)),
                Ok(price) => if f.len() < 5 {
                    Err(TradeFailure::MissingTimestamp)
                } else {
                    match i64_of(f[4]) {
                        Err(e) => Err(TradeFailure::InvalidTimestamp(e)),
                        Ok(timestamp) => if f.len() < 6 {
                            Err(TradeFailure::MissingSide)
                        } else {
                            match side_of(trim_end(f[5])) {
                                None => Err(TradeFailure::InvalidSide(row)),
                                Some(side) => Ok(Trade { id, side, price, timestamp }),
                            }
                        },
                    }
                },
            }
        },
    }
}

fn side_in(cs: &Vec<char>, lo: usize, hi: usize) -> (r: Option<TradeSide>)
    requires
        lo <= hi <= cs.len(),
    ensures
        r == side_of(cs@.subrange(lo as int, hi as int)),
{
    assert(['f', 'a', 'l', 's', 'e']@ =~= seq!['f', 'a', 'l', 's', 'e']);
    assert(['t', 'r', 'u', 'e']@ =~= seq!['t', 'r', 'u', 'e']);
    if range_is(cs, lo, hi, &['f', 'a', 'l', 's', 'e']) {
        Some(TradeSide::Buy)
    } else if range_is(cs, lo, hi, &['t', 'r', 'u', 'e']) {
        Some(TradeSide::Sell)
    } else {
        None
    }
}

/// Reads a side column as this exchange writes it.
pub fn parse_side(raw: &str) -> (r: Option<TradeSide>)
    ensures
        r == side_of(raw@),
{
    let cs = chars_of(raw);
    assert(cs@.subrange(0, cs@.len() as int) =~= cs@);
    side_in(&cs, 0, cs.len())
}

/// Reads one line of a trades archive.
pub fn parse_csv_trade(row: String) -> (r: Result<Trade, ParseTradeError>)
    ensures
        parsed_view(r) == trade_of(row@),
        r matches Ok(t) ==> t.price.wf(),
{
    let cs = chars_of(row.as_str());
    let f = split_ranges(&cs, ',');
    let ghost fs = split_fields(row@, ',');
    proof {
        crate::text::lemma_split_nonempty(row@, ',');
        assert(range_texts(cs@, f@).len() == f@.len());
        assert(forall|k: int|
            0 <= k < f@.len() ==> #[trigger] fs[k] == cs@.subrange(f@[k].0 as int, f@[k].1 as int));
    }
    let (lo, hi) = f[0];
    let id = match parse_u64_in(&cs, lo, hi) {
        Ok(id) => id,
        Err(e) => {
            return Err(ParseTradeError::InvalidTradeId(row, e));
        },
    };
    if f.len() < 2 {
        return Err(ParseTradeError::MissingPrice);
    }
    let (lo, hi) = f[1];
    let price = match parse_price_in(&cs, lo, hi) {
        Ok(p) => p,
        Err(e) => {
            return Err(ParseTradeError::InvalidPrice(e));
        },
    };
    if f.len() < 5 {
        return Err(ParseTradeError::MissingTimestamp);
    }
    let (lo, hi) = f[4];
    let timestamp = match parse_i64_in(&cs, lo, hi) {
        Ok(t) => t,
        Err(e) => {
            return Err(ParseTradeError::InvalidTimestamp(e));
        },
    };
    if f.len() < 6 {
        return Err(ParseTradeError::MissingSide);
    }
    let (lo, hi) = f[5];
    let end = trim_end_in(&cs, lo, hi);
    match side_in(&cs, lo, end) {
        Some(side) => Ok(Trade { id, side, price, timestamp }),
        None => Err(ParseTradeError::InvalidSide(row)),
    }
}

/// The address of the daily trades archive of `pair` on `date`.
pub open spec fn archive_url_text(first: Seq<char>, second: Seq<char>, date: Date) -> Seq<char> {
    let p = first + second;
    "https://data.binance.vision/data/futures/um/daily/trades/"@ + p + seq!['/'] + p
        + "-trades-"@ + date_text(date, true) + ".zip"@
}

/// The address of the daily trades archive of `trade_pair` on `date`.
pub fn trades_archive_url(trade_pair: &TradePair, date: Date) -> (r: String)
    requires
        date.wf(),
    ensures
        r@ == archive_url_text(trade_pair.first@, trade_pair.second@, date),
{
    let mut u = String::from_str("https://data.binance.vision/data/futures/um/daily/trades/");
    u.append(trade_pair.first.as_str());
    u.append(trade_pair.second.as_str());
    u.append("/");
    u.append(trade_pair.first.as_str());
    u.append(trade_pair.second.as_str());
    u.append("-trades-");
    let d = date.to_text(true);
    u.append(d.as_str());
    u.append(".zip");
    proof {
        reveal_strlit("https://data.binance.vision/data/futures/um/daily/trades/");
        reveal_strlit("/");
        reveal_strlit("-trades-");
        reveal_strlit(".zip");
        assert(u@ =~= archive_url_text(trade_pair.first@, trade_pair.second@, date));
    }
    u
}

/// One page of a bucket listing.
#[derive(Debug, Clone, PartialEq, Eq)]
pub struct ListBucketResult {
    pub truncated: bool,
    pub next_marker: Option<String>,
    pub contents: Vec<BucketContents>,
}

/// One object of a bucket listing.
#[derive(Debug, Clone, PartialEq, Eq)]
pub struct BucketContents {
    pub key: String,
    pub etag: String,
    pub size: u64,
}

impl BucketContents {
    /// Whether the object's key ends in `.zip`.
    pub fn is_zip(&self) -> (r: bool)
        ensures
            r == (self.key@.len() >= 4 && self.key@.subrange(self.key@.len() - 4, self.key@.len() as int)
                == seq!['.', 'z', 'i', 'p']),
    {
        let cs = chars_of(self.key.as_str());
        if cs.len() < 4 {
            return false;
        }
        assert(['.', 'z', 'i', 'p']@ =~= seq!['.', 'z', 'i', 'p']);
        range_is(&cs, cs.len() - 4, cs.len(), &['.', 'z', 'i', 'p'])
    }
}

/// Where a bucket listing stands after some pages.
pub struct Listing {
    pub contents: Vec<BucketContents>,
    /// The marker to ask the next page with; `None` once the listing is complete.
    pub next: Option<Option<String>>,
}

impl Listing {
    pub fn new() -> (r: Listing)
        ensures
            r.contents@.len() == 0,
            r.next == Some(None::<String>),
    {
        Listing { contents: Vec::new(), next: Some(None) }
    }

    /// Takes in one page: its objects are appended, and the listing goes on
    /// from the page's marker while the page says it is truncated.
    pub fn add_page(&mut self, page: ListBucketResult)
        ensures
            final(self).contents@ == old(self).contents@ + page.contents@,
            final(self).next == if page.truncated {
                Some(page.next_marker)
            } else {
                None
            },
    {
        let mut items = page.contents;
        self.contents.append(&mut items);
        self.next = if page.truncated {
            Some(page.next_marker)
        } else {
            None
        };
    }
}

} // verus!

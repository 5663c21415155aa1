//! The record model: trades, their side and the pair they are quoted in.
use vstd::prelude::*;
use crate::price::Price;
use crate::text::{NumberError, chars_of, split_fields, split_ranges, range_texts};

verus! {

/// Which side of the book initiated a trade.
#[derive(Debug, Clone, Copy, PartialEq, Eq, Structural)]
pub enum TradeSide {
    Buy,
    Sell,
}

/// One executed trade, as read from an exchange's archive.
#[derive(Debug, Clone, Copy, PartialEq, Eq, Structural)]
pub struct Trade {
    pub id: u64,
    pub side: TradeSide,
    pub price: Price,
    pub timestamp: i64,
}

/// Why one archive line could not be read as a trade.
#[derive(Debug, Clone, PartialEq, Eq)]
pub enum ParseTradeError {
    MissingTradeId,
    /// The whole line, and why its id column is not a `u64`.
    InvalidTradeId(String, NumberError),
    MissingSide,
    /// The whole line, whose side column is not one of the exchange's words.
    InvalidSide(String),
    MissingPrice,
    InvalidPrice(NumberError),
    MissingTimestamp,
    InvalidTimestamp(NumberError),
}

/// What a `ParseTradeError` says, with its text as a sequence of characters.
pub enum TradeFailure {
    MissingTradeId,
    InvalidTradeId(Seq<char>, NumberError),
    MissingSide,
    InvalidSide(Seq<char>),
    MissingPrice,
    InvalidPrice(NumberError),
    MissingTimestamp,
    InvalidTimestamp(NumberError),
}

impl View for ParseTradeError {
    type V = TradeFailure;

    open spec fn view(&self) -> TradeFailure {
        match self {
            ParseTradeError::MissingTradeId => TradeFailure::MissingTradeId,
            ParseTradeError::InvalidTradeId(row, e) => TradeFailure::InvalidTradeId(row@, *e),
            ParseTradeError::MissingSide => TradeFailure::MissingSide,
            ParseTradeError::InvalidSide(row) => TradeFailure::InvalidSide(row@),
            ParseTradeError::MissingPrice => TradeFailure::MissingPrice,
            ParseTradeError::InvalidPrice(e) => TradeFailure::InvalidPrice(*e),
            ParseTradeError::MissingTimestamp => TradeFailure::MissingTimestamp,
            ParseTradeError::InvalidTimestamp(e) => TradeFailure::InvalidTimestamp(*e),
        }
    }
}

/// A parse result with its error seen through `view`.
pub open spec fn parsed_view(r: Result<Trade, ParseTradeError>) -> Result<Trade, TradeFailure> {
    match r {
        Ok(t) => Ok(t),
        Err(e) => Err(e@),
    }
}

/// A trading pair such as `BTC-USDT`.
#[derive(Debug, Clone)]
pub struct TradePair {
    pub first: String,
    pub second: String,
}

/// What `text` means as a pair: the pieces before and after its first `-`,
/// the second one ending at the next `-` if there is one.
pub open spec fn pair_of(text: Seq<char>) -> Option<(Seq<char>, Seq<char>)> {
    let pieces = split_fields(text, '-');
    if pieces.len() >= 2 {
        Some((pieces[0], pieces[1]))
    } else {
        None
    }
}

impl TradePair {
    pub fn new(first: String, second: String) -> (r: TradePair)
        ensures
            r.first@ == first@,
            r.second@ == second@,
    {
        TradePair { first, second }
    }

    /// Reads a pair written as `first-second`.
    pub fn parse(text: &str) -> (r: Result<TradePair, ()>)
        ensures
            match pair_of(text@) {
                Some((a, b)) => r matches Ok(p) && p.first@ == a && p.second@ == b,
                None => r is Err,
            },
    {
        let cs = chars_of(text);
        let ranges = split_ranges(&cs, '-');
        assert(range_texts(cs@, ranges@).len() == ranges@.len());
        if ranges.len() >= 2 {
            let (a0, a1) = ranges[0];
            let (b0, b1) = ranges[1];
            assert(range_texts(cs@, ranges@)[0] == cs@.subrange(a0 as int, a1 as int));
            assert(range_texts(cs@, ranges@)[1] == cs@.subrange(b0 as int, b1 as int));
            let first = String::from_str(text.substring_char(a0, a1));
            let second = String::from_str(text.substring_char(b0, b1));
            Ok(TradePair { first, second })
        } else {
            Err(())
        }
    }

    /// The pair written as `first-second`.
    pub fn to_string(&self) -> (r: String)
        ensures
            r@ == self.first@ + seq!['-'] + self.second@,
    {
        let mut s = String::from_str(self.first.as_str());
        s.append("-");
        s.append(self.second.as_str());
        proof {
            reveal_strlit("-");
        }
        s
    }
}

impl core::str::FromStr for TradePair {
    type Err = ();

    fn from_str(text: &str) -> Result<TradePair, ()> {
        TradePair::parse(text)
    }
}

} // verus!

//! The JSON form of trades sent to clients: each trade is the array
//! `[timestamp, price, "buy"|"sell"]`, and a response is an array of them.
use vstd::prelude::*;
use crate::price::{
    Price, i64_text, price_text, price_of, push_i64_text, push_price_text, parse_price_in,
    nat_text, padded, scale_down, lemma_nat_text, lemma_padded_digits, lemma_no_sep,
    lemma_split_concat, lemma_price_round_trip, lemma_i64_round_trip,
};
use crate::text::{
    all_digits, is_digit, i64_of, split_fields, split_ranges, range_texts, chars_of, string_of,
    parse_i64_in, range_is,
};
use crate::trade::{Trade, TradeSide};

verus! {

pub open spec fn side_word(side: TradeSide) -> Seq<char> {
    match side {
        TradeSide::Buy => seq!['b', 'u', 'y'],
        TradeSide::Sell => seq!['s', 'e', 'l', 'l'],
    }
}

/// The JSON text of a trade: `[timestamp,price,"side"]`.
pub open spec fn trade_json(t: Trade) -> Seq<char> {
    seq!['['] + i64_text(t.timestamp) + seq![','] + price_text(t.price) + seq![','] + seq!['"']
        + side_word(t.side) + seq!['"'] + seq![']']
}

/// The elements separated by commas.
pub open spec fn joined(elems: Seq<Seq<char>>) -> Seq<char>
    decreases elems.len(),
{
    if elems.len() == 0 {
        Seq::empty()
    } else if elems.len() == 1 {
        elems[0]
    } else {
        joined(elems.drop_last()) + seq![','] + elems.last()
    }
}

/// The JSON array of the given trades.
pub open spec fn trades_json(trades: Seq<Trade>) -> Seq<char> {
    seq!['['] + joined(trades.map_values(|t: Trade| trade_json(t))) + seq![']']
}

/// What an array element means: a timestamp, a price and a side.
pub open spec fn element_of(s: Seq<char>) -> Option<(i64, Price, TradeSide)> {
    if s.len() < 2 || s[0] != '[' || s.last() != ']' {
        None
    } else {
        let parts = split_fields(s.subrange(1, s.len() - 1), ',');
        if parts.len() != 3 {
            None
        } else {
            match (i64_of(parts[0]), price_of(parts[1])) {
                (Ok(ts), Ok(p)) => if parts[2] == seq!['"'] + side_word(TradeSide::Buy) + seq!['"'] {
                    Some((ts, p, TradeSide::Buy))
                } else if parts[2] == seq!['"'] + side_word(TradeSide::Sell) + seq!['"'] {
                    Some((ts, p, TradeSide::Sell))
                } else {
                    None
                },
                _ => None,
            }
        }
    }
}

fn push_trade_json(out: &mut Vec<char>, t: &Trade)
    ensures
        final(out)@ == old(out)@ + trade_json(*t),
{
    out.push('[');
    push_i64_text(out, t.timestamp);
    out.push(',');
    push_price_text(out, t.price);
    out.push(',');
    out.push('"');
    match t.side {
        TradeSide::Buy => {
            out.push('b');
            out.push('u');
            out.push('y');
        },
        TradeSide::Sell => {
            out.push('s');
            out.push('e');
            out.push('l');
            out.push('l');
        },
    }
    out.push('"');
    out.push(']');
    assert(out@ =~= old(out)@ + trade_json(*t));
}

/// The JSON text of one trade.
pub fn trade_to_json(t: &Trade) -> (r: String)
    ensures
        r@ == trade_json(*t),
{
    let mut out: Vec<char> = Vec::new();
    push_trade_json(&mut out, t);
    assert(out@ =~= trade_json(*t));
    string_of(&out)
}

/// The piece of an array that carries one more trade: the trade, after a
/// comma unless it is the first.
pub fn trade_chunk(first: bool, t: &Trade) -> (r: String)
    ensures
        r@ == if first {
            trade_json(*t)
        } else {
            seq![','] + trade_json(*t)
        },
{
    let mut out: Vec<char> = Vec::new();
    if !first {
        out.push(',');
    }
    push_trade_json(&mut out, t);
    assert(out@ =~= if first {
        trade_json(*t)
    } else {
        seq![','] + trade_json(*t)
    });
    string_of(&out)
}

/// The JSON array of the given trades.
pub fn write_trades(trades: &Vec<Trade>) -> (r: String)
    ensures
        r@ == trades_json(trades@),
{
    let ghost texts = trades@.map_values(|t: Trade| trade_json(t));
    let mut out: Vec<char> = Vec::new();
    out.push('[');
    let mut i: usize = 0;
    while i < trades.len()
        invariant
            i <= trades.len(),
            texts == trades@.map_values(|t: Trade| trade_json(t)),
            out@ == seq!['['] + joined(texts.take(i as int)),
        decreases trades.len() - i,
    {
        let ghost before = out@;
        if i > 0 {
            out.push(',');
        }
        push_trade_json(&mut out, &trades[i]);
        assert(texts.take(i + 1).drop_last() =~= texts.take(i as int));
        assert(texts.take(i as int).len() == 0 ==> texts.take(i + 1) =~= seq![texts[i as int]]);
        assert(out@ =~= seq!['['] + joined(texts.take(i + 1)));
        i = i + 1;
    }
    out.push(']');
    assert(texts.take(i as int) =~= texts);
    assert(out@ =~= trades_json(trades@));
    string_of(&out)
}

/// Reads back one element of a trades array.
pub fn parse_trade_json(text: &str) -> (r: Option<(i64, Price, TradeSide)>)
    ensures
        r == element_of(text@),
{
    let cs = chars_of(text);
    let n = cs.len();
    if n < 2 || cs[0] != '[' || cs[n - 1] != ']' {
        return None;
    }
    let mut inner: Vec<char> = Vec::new();
    let mut k: usize = 1;
    while k < n - 1
        invariant
            1 <= k <= n - 1,
            n == cs.len(),
            inner@ == cs@.subrange(1, k as int),
        decreases n - 1 - k,
    {
        inner.push(cs[k]);
        k = k + 1;
        assert(inner@ =~= cs@.subrange(1, k as int));
    }
    let parts = split_ranges(&inner, ',');
    let ghost ps = split_fields(inner@, ',');
    assert(range_texts(inner@, parts@).len() == parts@.len());
    if parts.len() != 3 {
        return None;
    }
    assert(ps[0] == inner@.subrange(parts@[0].0 as int, parts@[0].1 as int));
    assert(ps[1] == inner@.subrange(parts@[1].0 as int, parts@[1].1 as int));
    assert(ps[2] == inner@.subrange(parts@[2].0 as int, parts@[2].1 as int));
    let ts = match parse_i64_in(&inner, parts[0].0, parts[0].1) {
        Ok(v) => v,
        Err(_) => {
            return None;
        },
    };
    let price = match parse_price_in(&inner, parts[1].0, parts[1].1) {
        Ok(p) => p,
        Err(_) => {
            return None;
        },
    };
    assert(['"', 'b', 'u', 'y', '"']@ =~= seq!['"'] + side_word(TradeSide::Buy) + seq!['"']);
    assert(['"', 's', 'e', 'l', 'l', '"']@ =~= seq!['"'] + side_word(TradeSide::Sell) + seq!['"']);
    if range_is(&inner, parts[2].0, parts[2].1, &['"', 'b', 'u', 'y', '"']) {
        Some((ts, price, TradeSide::Buy))
    } else if range_is(&inner, parts[2].0, parts[2].1, &['"', 's', 'e', 'l', 'l', '"']) {
        Some((ts, price, TradeSide::Sell))
    } else {
        None
    }
}

pub open spec fn no_comma(s: Seq<char>) -> bool {
    forall|i: int| 0 <= i < s.len() ==> s[i] != ','
}

proof fn lemma_digits_no_comma(s: Seq<char>)
    requires
        all_digits(s),
    ensures
        no_comma(s),
{
    assert forall|i: int| 0 <= i < s.len() implies s[i] != ',' by {
        assert(is_digit(s[i]));
    }
}

proof fn lemma_i64_text_no_comma(x: i64)
    ensures
        no_comma(i64_text(x)),
{
    if x < 0 {
        lemma_nat_text((0 - x) as nat);
        lemma_digits_no_comma(nat_text((0 - x) as nat));
        let t = i64_text(x);
        assert forall|i: int| 0 <= i < t.len() implies t[i] != ',' by {
            if i > 0 {
                assert(t[i] == nat_text((0 - x) as nat)[i - 1]);
            }
        }
    } else {
        lemma_nat_text(x as nat);
        lemma_digits_no_comma(nat_text(x as nat));
    }
}

proof fn lemma_price_text_no_comma(p: Price)
    ensures
        no_comma(price_text(p)),
{
    let m = p.mantissa as nat;
    let w = p.scale as nat;
    if w == 0 {
        lemma_nat_text(m);
        lemma_digits_no_comma(nat_text(m));
    } else {
        let a = nat_text(scale_down(m, w));
        let b = padded(m, w);
        lemma_nat_text(scale_down(m, w));
        lemma_padded_digits(m, w);
        lemma_digits_no_comma(a);
        lemma_digits_no_comma(b);
        let t = price_text(p);
        assert forall|i: int| 0 <= i < t.len() implies t[i] != ',' by {
            if i < a.len() {
                assert(t[i] == a[i]);
            } else if i > a.len() {
                assert(t[i] == b[i - a.len() - 1]);
            }
        }
    }
}

/// Reading back the JSON text of a trade gives its timestamp, price and side.
pub proof fn lemma_json_round_trip(t: Trade)
    requires
        t.price.wf(),
    ensures
        element_of(trade_json(t)) == Some((t.timestamp, t.price, t.side)),
{
    let a = i64_text(t.timestamp);
    let b = price_text(t.price);
    let c = seq!['"'] + side_word(t.side) + seq!['"'];
    let s = trade_json(t);
    assert(s.subrange(1, s.len() - 1) =~= a + seq![','] + (b + seq![','] + c));
    lemma_i64_round_trip(t.timestamp);
    lemma_price_round_trip(t.price);
    lemma_i64_text_no_comma(t.timestamp);
    lemma_price_text_no_comma(t.price);
    assert(no_comma(c));
    lemma_no_sep(a, ',');
    lemma_no_sep(b, ',');
    lemma_no_sep(c, ',');
    lemma_split_concat(b, ',', c);
    lemma_split_concat(a, ',', b + seq![','] + c);
    assert(split_fields(b + seq![','] + c, ',') =~= seq![b, c]);
    assert(split_fields(s.subrange(1, s.len() - 1), ',') =~= seq![a, b, c]);
}

} // verus!

use tradestream::output::{parse_trade_json, trade_chunk, trade_to_json, write_trades};
use tradestream::price::Price;
use tradestream::trade::{Trade, TradeSide};

fn trade(ts: i64, m: u64, s: usize, side: TradeSide) -> Trade {
    Trade { id: 1, side, price: Price { mantissa: m, scale: s }, timestamp: ts }
}

#[test]
fn trade_json_text() {
    assert_eq!(trade_to_json(&trade(1663191423000, 45678, 2, TradeSide::Buy)), "[1663191423000,456.78,\"buy\"]");
    assert_eq!(trade_to_json(&trade(-5, 7, 3, TradeSide::Sell)), "[-5,0.007,\"sell\"]");
    assert_eq!(trade_to_json(&trade(0, 120, 0, TradeSide::Sell)), "[0,120,\"sell\"]");
    assert_eq!(trade_to_json(&trade(i64::MIN, 1, 0, TradeSide::Buy)), "[-9223372036854775808,1,\"buy\"]");
}

#[test]
fn json_round_trip() {
    for t in [
        trade(1663191423000, 45678, 2, TradeSide::Buy),
        trade(-5, 7, 3, TradeSide::Sell),
        trade(i64::MAX, u64::MAX, 19, TradeSide::Sell),
        trade(0, 0, 0, TradeSide::Buy),
    ] {
        let text = trade_to_json(&t);
        assert_eq!(parse_trade_json(&text), Some((t.timestamp, t.price, t.side)));
    }
    assert_eq!(parse_trade_json("[1,2]"), None);
    assert_eq!(parse_trade_json("[1,2,\"hold\"]"), None);
}

#[test]
fn json_arrays() {
    assert_eq!(write_trades(&vec![]), "[]");
    let a = trade(1, 15, 1, TradeSide::Buy);
    let b = trade(2, 25, 1, TradeSide::Sell);
    assert_eq!(write_trades(&vec![a, b]), "[[1,1.5,\"buy\"],[2,2.5,\"sell\"]]");
    let streamed = format!("[{}{}]", trade_chunk(true, &a), trade_chunk(false, &b));
    assert_eq!(streamed, write_trades(&vec![a, b]));
}

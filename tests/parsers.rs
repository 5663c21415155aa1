use tradestream::binance::{self, BucketContents, ListBucketResult, Listing};
use tradestream::date::Date;
use tradestream::olx;
use tradestream::price::Price;
use tradestream::text::NumberError;
use tradestream::trade::{ParseTradeError, Trade, TradePair, TradeSide};

fn price(m: u64, s: usize) -> Price {
    Price { mantissa: m, scale: s }
}

#[test]
fn test_trade_archive_filename() {
    assert_eq!(
        binance::trades_archive_url(
            &TradePair::new("BTC".to_string(), "USDT".to_string()),
            Date::new(2022, 9, 13).unwrap()
        ),
        "https://data.binance.vision/data/futures/um/daily/trades/BTCUSDT/BTCUSDT-trades-2022-09-13.zip"
    );
}

#[test]
fn olx_archive_filename() {
    assert_eq!(
        olx::trades_archive_url(
            &TradePair::new("BTC".to_string(), "USDT".to_string()),
            Date::new(2022, 9, 3).unwrap()
        ),
        "https://static.okx.com/cdn/okex/traderecords/trades/daily/20220903/BTC-USDT-trades-2022-09-03.zip"
    );
}

#[test]
fn binance_line_scenario() {
    let t = binance::parse_csv_trade("123,456.78,x,x,1663191423000,false\n".to_string()).unwrap();
    assert_eq!(
        t,
        Trade { id: 123, price: price(45678, 2), timestamp: 1663191423000, side: TradeSide::Buy }
    );
}

#[test]
fn binance_true_is_sell() {
    let t = binance::parse_csv_trade("7,1.5,x,x,-20,true".to_string()).unwrap();
    assert_eq!(t, Trade { id: 7, price: price(15, 1), timestamp: -20, side: TradeSide::Sell });
}

#[test]
fn olx_line_scenario() {
    let t = olx::parse_trade("123,sell,x,456.78,1663191423\n".to_string()).unwrap();
    assert_eq!(
        t,
        Trade { id: 123, price: price(45678, 2), timestamp: 1663191423, side: TradeSide::Sell }
    );
}

#[test]
fn parse_is_deterministic() {
    let line = "99,buy,x,0.10,5\r\n";
    assert_eq!(olx::parse_trade(line.to_string()), olx::parse_trade(line.to_string()));
    let bad = "x,buy";
    assert_eq!(olx::parse_trade(bad.to_string()), olx::parse_trade(bad.to_string()));
}

#[test]
fn binance_errors() {
    assert_eq!(
        binance::parse_csv_trade("abc,1.0,x,x,1,false".to_string()),
        Err(ParseTradeError::InvalidTradeId("abc,1.0,x,x,1,false".to_string(), NumberError::InvalidDigit))
    );
    assert_eq!(
        binance::parse_csv_trade(",1.0".to_string()),
        Err(ParseTradeError::InvalidTradeId(",1.0".to_string(), NumberError::Empty))
    );
    assert_eq!(
        binance::parse_csv_trade("99999999999999999999,1".to_string()),
        Err(ParseTradeError::InvalidTradeId("99999999999999999999,1".to_string(), NumberError::Overflow))
    );
    assert_eq!(binance::parse_csv_trade("1".to_string()), Err(ParseTradeError::MissingPrice));
    assert_eq!(
        binance::parse_csv_trade("1,1.x,x,x,1,false".to_string()),
        Err(ParseTradeError::InvalidPrice(NumberError::InvalidDigit))
    );
    assert_eq!(binance::parse_csv_trade("1,2,x,x".to_string()), Err(ParseTradeError::MissingTimestamp));
    assert_eq!(
        binance::parse_csv_trade("1,2,x,x,9223372036854775808,true".to_string()),
        Err(ParseTradeError::InvalidTimestamp(NumberError::Overflow))
    );
    assert_eq!(binance::parse_csv_trade("1,2,x,x,3".to_string()), Err(ParseTradeError::MissingSide));
    assert_eq!(
        binance::parse_csv_trade("1,2,x,x,3,maybe".to_string()),
        Err(ParseTradeError::InvalidSide("1,2,x,x,3,maybe".to_string()))
    );
}

#[test]
fn olx_errors() {
    assert_eq!(olx::parse_trade("1".to_string()), Err(ParseTradeError::MissingSide));
    assert_eq!(
        olx::parse_trade("1,hold,x,2,3".to_string()),
        Err(ParseTradeError::InvalidSide("1,hold,x,2,3".to_string()))
    );
    assert_eq!(olx::parse_trade("1,buy,x".to_string()), Err(ParseTradeError::MissingPrice));
    assert_eq!(
        olx::parse_trade("1,buy,x,,3".to_string()),
        Err(ParseTradeError::InvalidPrice(NumberError::Empty))
    );
    assert_eq!(olx::parse_trade("1,buy,x,2".to_string()), Err(ParseTradeError::MissingTimestamp));
    assert_eq!(
        olx::parse_trade("1,buy,x,2,3 4".to_string()),
        Err(ParseTradeError::InvalidTimestamp(NumberError::InvalidDigit))
    );
    assert_eq!(
        olx::parse_trade("-1,buy,x,2,3".to_string()),
        Err(ParseTradeError::InvalidTradeId("-1,buy,x,2,3".to_string(), NumberError::InvalidDigit))
    );
}

#[test]
fn price_columns() {
    let t = olx::parse_trade("1,buy,x,20025.58000000,3".to_string()).unwrap();
    assert_eq!(t.price, price(2002558, 2));
    let t = olx::parse_trade("1,buy,x,100,3".to_string()).unwrap();
    assert_eq!(t.price, price(100, 0));
    let t = olx::parse_trade("1,buy,x,5.000,3".to_string()).unwrap();
    assert_eq!(t.price, price(5, 0));
    assert_eq!(
        olx::parse_trade("1,buy,x,1.2.3,3".to_string()),
        Err(ParseTradeError::InvalidPrice(NumberError::InvalidDigit))
    );
    assert_eq!(
        olx::parse_trade("1,buy,x,7.,3".to_string()),
        Err(ParseTradeError::InvalidPrice(NumberError::InvalidDigit))
    );
    assert_eq!(
        olx::parse_trade("1,buy,x,18446744073709551616,3".to_string()),
        Err(ParseTradeError::InvalidPrice(NumberError::Overflow))
    );
    assert_eq!(Price::new(45600, 3), price(456, 1));
}

#[test]
fn sides() {
    assert_eq!(binance::parse_side("false"), Some(TradeSide::Buy));
    assert_eq!(binance::parse_side("true"), Some(TradeSide::Sell));
    assert_eq!(binance::parse_side("buy"), None);
    assert_eq!(olx::parse_side("buy"), Some(TradeSide::Buy));
    assert_eq!(olx::parse_side("sell"), Some(TradeSide::Sell));
    assert_eq!(olx::parse_side("sell "), None);
}

#[test]
fn trade_pairs() {
    let p = TradePair::parse("BTC-USDT").unwrap();
    assert_eq!(p.first, "BTC");
    assert_eq!(p.second, "USDT");
    assert_eq!(p.to_string(), "BTC-USDT");
    let p: TradePair = "A-B-C".parse().unwrap();
    assert_eq!((p.first.as_str(), p.second.as_str()), ("A", "B"));
    assert!(TradePair::parse("BTCUSDT").is_err());
    let p = TradePair::parse("-").unwrap();
    assert_eq!((p.first.as_str(), p.second.as_str()), ("", ""));
}

#[test]
fn dates() {
    assert!(Date::new(2024, 2, 29).is_some());
    assert!(Date::new(2023, 2, 29).is_none());
    assert!(Date::new(1900, 2, 29).is_none());
    assert!(Date::new(2000, 2, 29).is_some());
    assert!(Date::new(2022, 4, 31).is_none());
    assert!(Date::new(2022, 13, 1).is_none());
    assert_eq!(Date::new(987, 1, 2).unwrap().to_text(true), "0987-01-02");
    assert_eq!(Date::new(2022, 11, 30).unwrap().to_text(false), "20221130");
}

#[test]
fn bucket_listing() {
    let a = BucketContents { key: "x/a.zip".to_string(), etag: "e".to_string(), size: 1 };
    let b = BucketContents { key: "x/a.zip.CHECKSUM".to_string(), etag: "f".to_string(), size: 2 };
    assert!(a.is_zip());
    assert!(!b.is_zip());
    let mut listing = Listing::new();
    listing.add_page(ListBucketResult {
        truncated: true,
        next_marker: Some("m".to_string()),
        contents: vec![a.clone()],
    });
    assert_eq!(listing.next, Some(Some("m".to_string())));
    listing.add_page(ListBucketResult { truncated: false, next_marker: None, contents: vec![b.clone()] });
    assert_eq!(listing.next, None);
    assert_eq!(listing.contents, vec![a, b]);
}

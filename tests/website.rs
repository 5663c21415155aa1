use tradestream::price::Price;
use tradestream::reader::{Exchange, HttpZipReaderError, TradeReaderError};
use tradestream::trade::{Trade, TradeSide};
use tradestream::website::{
    credentials_from, exchange_of, keep_trade, login_allowed, Credentials, DatasetError,
};

#[test]
fn credentials_configuration() {
    assert!(credentials_from(None, None).is_none());
    let c = credentials_from(Some("u".to_string()), None).unwrap();
    assert_eq!((c.user.as_str(), c.password.as_str()), ("u", ""));
    let c = credentials_from(None, Some("p".to_string())).unwrap();
    assert_eq!((c.user.as_str(), c.password.as_str()), ("", "p"));
}

#[test]
fn login_checks() {
    assert!(login_allowed(&None, "anyone", None));
    let server = Some(Credentials { user: "u".to_string(), password: "SECRET-REDACTED".to_string() });
    assert!(login_allowed(&server, "u", Some("SECRET-REDACTED")));
    assert!(!login_allowed(&server, "u", Some("wrong")));
    assert!(!login_allowed(&server, "v", Some("SECRET-REDACTED")));
    assert!(!login_allowed(&server, "u", None));
}

#[test]
fn exchanges_and_strides() {
    assert_eq!(exchange_of("binance"), Some(Exchange::Binance));
    assert_eq!(exchange_of("olx"), Some(Exchange::Olx));
    assert_eq!(exchange_of("kraken"), None);
    assert_eq!(Exchange::Binance.sample_stride(), 50);
    assert_eq!(Exchange::Olx.sample_stride(), 10);
}

#[test]
fn dataset_errors() {
    assert_eq!(DatasetError::from_reader_error(HttpZipReaderError::NotFound), DatasetError::NotFound);
    let e = DatasetError::from_reader_error(HttpZipReaderError::InvalidStatusCode(503));
    assert_eq!(e.status_code(), 500);
    assert_eq!(e.error_message(), "Internal server error");
    assert_eq!(DatasetError::NotFound.status_code(), 404);
    assert_eq!(DatasetError::NotFound.error_message(), "Dataset for given parameters not found");
    let e = DatasetError::ParseDate("bad".to_string());
    assert_eq!(e.status_code(), 400);
    assert_eq!(e.error_message(), "Could not parse date: bad");
    assert_eq!(DatasetError::ParseCoinPair.error_message(), "Could not parse coin pair");
    assert_eq!(DatasetError::UnknownExchange.status_code(), 400);
}

#[test]
fn failed_trades_are_dropped() {
    let t = Trade { id: 1, side: TradeSide::Buy, price: Price { mantissa: 1, scale: 0 }, timestamp: 2 };
    assert_eq!(keep_trade(Ok(t)), Some(t));
    assert_eq!(keep_trade(Err(TradeReaderError::IO("x".to_string()))), None);
}

use tradestream::price::Price;
use tradestream::reader::{
    assemble, check_status, parse_line, Exchange, HttpZipReaderError, ReadOutcome, StreamStep,
    TradeReaderError, ZipCsvTradeReader, ZipReaderError,
};
use tradestream::text::NumberError;
use tradestream::trade::{ParseTradeError, Trade, TradeSide};

fn lines(v: &[&str]) -> Vec<String> {
    v.iter().map(|s| s.to_string()).collect()
}

fn olx_line(id: u64) -> String {
    format!("{},buy,x,1.5,{}\n", id, id * 10)
}

fn olx_trade(id: u64) -> Trade {
    Trade { id, side: TradeSide::Buy, price: Price { mantissa: 15, scale: 1 }, timestamp: id as i64 * 10 }
}

#[test]
fn full_stride_yields_every_data_line() {
    let mut input = vec!["id,side,x,price,time\n".to_string()];
    for id in 1..=4 {
        input.push(olx_line(id));
    }
    input.push("oops\n".to_string());
    let out = assemble(&input, Exchange::Olx, 1);
    assert_eq!(out.len(), 5);
    for id in 1..=4u64 {
        assert_eq!(out[id as usize - 1], Ok(olx_trade(id)));
    }
    assert!(matches!(out[4], Err(TradeReaderError::Parse(ParseTradeError::InvalidTradeId(_, _)))));
}

#[test]
fn one_malformed_line_among_valid_ones() {
    let input = vec![
        "header\n".to_string(),
        olx_line(1),
        olx_line(2),
        "3,buy,x,1.x,30\n".to_string(),
        olx_line(4),
        olx_line(5),
    ];
    let out = assemble(&input, Exchange::Olx, 1);
    assert_eq!(out.len(), 5);
    assert_eq!(out.iter().filter(|r| r.is_ok()).count(), 4);
    assert_eq!(out[0], Ok(olx_trade(1)));
    assert_eq!(out[1], Ok(olx_trade(2)));
    assert_eq!(
        out[2],
        Err(TradeReaderError::Parse(ParseTradeError::InvalidPrice(NumberError::InvalidDigit)))
    );
    assert_eq!(out[3], Ok(olx_trade(4)));
    assert_eq!(out[4], Ok(olx_trade(5)));
}

#[test]
fn sampling_takes_every_nth_data_line() {
    let mut input = vec!["header\n".to_string()];
    for id in 0..10 {
        input.push(olx_line(id));
    }
    let out = assemble(&input, Exchange::Olx, 3);
    assert_eq!(out, vec![Ok(olx_trade(0)), Ok(olx_trade(3)), Ok(olx_trade(6)), Ok(olx_trade(9))]);
    let out = assemble(&input, Exchange::Olx, 10);
    assert_eq!(out, vec![Ok(olx_trade(0))]);
    let out = assemble(&input, Exchange::Olx, 11);
    assert_eq!(out, vec![Ok(olx_trade(0))]);
}

#[test]
fn header_is_never_parsed() {
    let a = assemble(&lines(&["1,buy,x,1.5,10\n", "2,buy,x,1.5,20\n"]), Exchange::Olx, 1);
    assert_eq!(a, vec![Ok(olx_trade(2))]);
    let only_header = assemble(&lines(&["1,buy,x,1.5,10\n"]), Exchange::Olx, 2);
    assert!(only_header.is_empty());
    assert!(assemble(&Vec::new(), Exchange::Binance, 1).is_empty());
}

#[test]
fn parse_line_picks_the_exchange() {
    let b = parse_line(Exchange::Binance, "1,2,x,x,3,true".to_string()).unwrap();
    assert_eq!(b.side, TradeSide::Sell);
    let o = parse_line(Exchange::Olx, "1,sell,x,2,3".to_string()).unwrap();
    assert_eq!(o.side, TradeSide::Sell);
}

#[test]
fn empty_archive_fails_before_any_line() {
    assert!(matches!(ZipCsvTradeReader::new(false, Exchange::Olx, 1), Err(ZipReaderError::EmptyZip)));
    assert!(ZipCsvTradeReader::new(true, Exchange::Olx, 1).is_ok());
}

#[test]
fn streaming_reader_samples_and_skips_header() {
    let mut r = ZipCsvTradeReader::new(true, Exchange::Olx, 2).ok().unwrap();
    assert_eq!(r.next(ReadOutcome::Line("h\n".to_string())), StreamStep::Skip);
    let mut emitted = Vec::new();
    for id in 0..5 {
        match r.next(ReadOutcome::Line(olx_line(id))) {
            StreamStep::Emit(x) => emitted.push(x),
            StreamStep::Skip => {}
            other => panic!("unexpected {:?}", other),
        }
    }
    assert_eq!(emitted, vec![Ok(olx_trade(0)), Ok(olx_trade(2)), Ok(olx_trade(4))]);
    assert_eq!(r.next(ReadOutcome::End), StreamStep::Finish);
    assert_eq!(r.next(ReadOutcome::Line(olx_line(9))), StreamStep::Finish);
}

#[test]
fn streaming_reader_retries_first_invalid_read_once() {
    let mut r = ZipCsvTradeReader::new(true, Exchange::Binance, 1).ok().unwrap();
    assert_eq!(r.next(ReadOutcome::InvalidData("bad".to_string())), StreamStep::Retry);
    assert_eq!(
        r.next(ReadOutcome::InvalidData("bad".to_string())),
        StreamStep::Emit(Err(TradeReaderError::IO("bad".to_string())))
    );
    assert_eq!(r.next(ReadOutcome::End), StreamStep::Finish);
    let mut r = ZipCsvTradeReader::new(true, Exchange::Binance, 1).ok().unwrap();
    assert_eq!(r.next(ReadOutcome::Line("h\n".to_string())), StreamStep::Skip);
    assert_eq!(
        r.next(ReadOutcome::Failed("io".to_string())),
        StreamStep::Emit(Err(TradeReaderError::IO("io".to_string())))
    );
    assert_eq!(r.next(ReadOutcome::End), StreamStep::Finish);
}

#[test]
fn http_status_codes() {
    assert_eq!(check_status(200), Ok(()));
    assert_eq!(check_status(204), Ok(()));
    assert_eq!(check_status(404), Err(HttpZipReaderError::NotFound));
    assert_eq!(check_status(500), Err(HttpZipReaderError::InvalidStatusCode(500)));
    assert_eq!(check_status(301), Err(HttpZipReaderError::InvalidStatusCode(301)));
}

#[test]
fn streaming_and_batch_agree() {
    let mut input = vec!["header\n".to_string()];
    for id in 0..23 {
        input.push(olx_line(id));
    }
    input.insert(7, "bad line\n".to_string());
    for stride in 1..=25 {
        let batch = assemble(&input, Exchange::Olx, stride);
        let mut r = ZipCsvTradeReader::new(true, Exchange::Olx, stride).ok().unwrap();
        let mut streamed = Vec::new();
        for line in &input {
            if let StreamStep::Emit(x) = r.next(ReadOutcome::Line(line.clone())) {
                streamed.push(x);
            }
        }
        assert_eq!(r.next(ReadOutcome::End), StreamStep::Finish);
        assert_eq!(streamed, batch, "stride {}", stride);
    }
}

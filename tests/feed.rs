use tradestream::feed::{
    should_reconnect, AggrMessage, FeedAction, FeedEvent, FeedSession, Json, ListenError,
    KEEP_ALIVE_MS,
};
use tradestream::price::Price;

fn text(s: &str) -> Json {
    Json::Text(s.to_string())
}

fn aggr_value() -> Json {
    Json::Object(vec![
        ("e".to_string(), text("aggTrade")),
        ("E".to_string(), Json::Unsigned(1663191423013)),
        ("s".to_string(), text("BTCUSDT")),
        ("a".to_string(), Json::Unsigned(1556789983)),
        ("p".to_string(), text("20025.58000000")),
        ("q".to_string(), text("0.13400000")),
        ("f".to_string(), Json::Unsigned(1816909525)),
        ("l".to_string(), Json::Unsigned(1816909527)),
        ("T".to_string(), Json::Unsigned(1663191423013)),
        ("m".to_string(), Json::Bool(false)),
        ("M".to_string(), Json::Bool(true)),
    ])
}

#[test]
fn deserialize_aggr_message() {
    assert_eq!(
        AggrMessage::from_json(&aggr_value()).unwrap(),
        AggrMessage {
            symbol: "BTCUSDT".to_string(),
            timestamp: 1663191423013,
            trade_id: 1556789983,
            price: Price { mantissa: 2002558, scale: 2 },
        }
    );
}

#[test]
fn other_messages_are_ignored() {
    let v = Json::Object(vec![("e".to_string(), text("depthUpdate"))]);
    assert_eq!(AggrMessage::from_json(&v), None);
    assert_eq!(AggrMessage::from_json(&Json::Array(vec![])), None);
    let v = Json::Object(vec![
        ("e".to_string(), text("aggTrade")),
        ("s".to_string(), text("BTCUSDT")),
        ("T".to_string(), Json::Negative(-1)),
        ("a".to_string(), Json::Unsigned(1)),
        ("p".to_string(), text("1")),
    ]);
    assert_eq!(AggrMessage::from_json(&v), None);
}

#[test]
fn session_answers_frames() {
    let mut s = FeedSession::start(0);
    assert_eq!(s.handle(5, FeedEvent::Ping(vec![1, 2])), FeedAction::SendPong(vec![1, 2]));
    assert_eq!(s.handle(6, FeedEvent::Pong), FeedAction::Nothing);
    assert_eq!(s.last_heartbeat, 6);
    match s.handle(7, FeedEvent::Text(Ok(aggr_value()))) {
        FeedAction::Publish(m) => assert_eq!(m.trade_id, 1556789983),
        other => panic!("unexpected {:?}", other),
    }
    assert_eq!(s.handle(8, FeedEvent::Text(Ok(Json::Null))), FeedAction::Nothing);
    assert_eq!(
        s.handle(9, FeedEvent::Text(Err("eof".to_string()))),
        FeedAction::Fail(ListenError::InvalidPacket("eof".to_string()))
    );
    assert_eq!(
        s.handle(9, FeedEvent::ProtocolError("x".to_string())),
        FeedAction::Fail(ListenError::ProtocolError("x".to_string()))
    );
}

#[test]
fn pong_every_tick_never_times_out() {
    let mut s = FeedSession::start(1_000);
    for i in 1..100u64 {
        let now = 1_000 + i * KEEP_ALIVE_MS;
        assert_eq!(s.handle(now, FeedEvent::KeepAlive), FeedAction::SendPing);
        assert_eq!(s.handle(now, FeedEvent::Pong), FeedAction::Nothing);
    }
}

#[test]
fn silence_times_out_at_eleven_ticks() {
    let mut s = FeedSession::start(0);
    for i in 1..=10u64 {
        assert_eq!(s.handle(i * KEEP_ALIVE_MS, FeedEvent::KeepAlive), FeedAction::SendPing);
    }
    assert_eq!(
        s.handle(11 * KEEP_ALIVE_MS, FeedEvent::KeepAlive),
        FeedAction::Fail(ListenError::Timeout(11_000))
    );
}

#[test]
fn reconnect_policy() {
    assert!(!should_reconnect(&ListenError::ListenerClosed));
    assert!(should_reconnect(&ListenError::Timeout(11_000)));
    assert!(should_reconnect(&ListenError::EndOfStream));
}

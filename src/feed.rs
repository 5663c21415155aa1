//! The live trade feed: the messages it carries and the decisions of a
//! connection's session (answering pings, tracking pongs, detecting a dead
//! connection, publishing trades).
use vstd::prelude::*;
use crate::price::{Price, price_of, parse_price_in};
use crate::text::chars_of;

verus! {

/// A JSON value, as decoded from a text frame.
#[derive(Debug)]
pub enum Json {
    Null,
    Bool(bool),
    /// A number that is a non-negative integer.
    Unsigned(u64),
    /// A number that is a negative integer.
    Negative(i64),
    /// Any other number.
    Fraction,
    Text(String),
    Array(Vec<Json>),
    Object(Vec<(String, Json)>),
}

/// The value of the first member named `key`, if `v` is an object.
pub open spec fn member(v: Json, key: Seq<char>) -> Option<Json> {
    match v {
        Json::Object(entries) => lookup(entries@, key),
        _ => None,
    }
}

pub open spec fn lookup(entries: Seq<(String, Json)>, key: Seq<char>) -> Option<Json>
    decreases entries.len(),
{
    if entries.len() == 0 {
        None
    } else if entries[0].0@ == key {
        Some(entries[0].1)
    } else {
        lookup(entries.drop_first(), key)
    }
}

pub open spec fn member_text(v: Json, key: Seq<char>) -> Option<Seq<char>> {
    match member(v, key) {
        Some(Json::Text(s)) => Some(s@),
        _ => None,
    }
}

pub open spec fn member_u64(v: Json, key: Seq<char>) -> Option<u64> {
    match member(v, key) {
        Some(Json::Unsigned(n)) => Some(n),
        _ => None,
    }
}

/// The value of the first member named `key`, if `v` is an object.
pub fn get<'a>(v: &'a Json, key: &str) -> (r: Option<&'a Json>)
    ensures
        match r {
            Some(j) => member(*v, key@) == Some(*j),
            None => member(*v, key@) is None,
        },
{
    match v {
        Json::Object(entries) => {
            let k = String::from_str(key);
            let mut i: usize = 0;
            assert(entries@.subrange(0, entries.len() as int) =~= entries@);
            while i < entries.len()
                invariant
                    i <= entries.len(),
                    k@ == key@,
                    member(*v, key@) == lookup(entries@, key@),
                    lookup(entries@, key@) == lookup(entries@.subrange(i as int, entries.len() as int), key@),
                decreases entries.len() - i,
            {
                let ghost rest = entries@.subrange(i as int, entries.len() as int);
                assert(rest.drop_first() =~= entries@.subrange(i + 1, entries.len() as int));
                if entries[i].0 == k {
                    assert(rest[0] == entries@[i as int]);
                    return Some(&entries[i].1);
                }
                i = i + 1;
            }
            None
        },
        _ => None,
    }
}

/// An aggregated trade published by the feed.
#[derive(Debug, Clone, PartialEq, Eq)]
pub struct AggrMessage {
    pub symbol: String,
    /// Milliseconds since the Unix epoch.
    pub timestamp: u64,
    pub trade_id: u64,
    pub price: Price,
}

pub open spec fn lit_e() -> Seq<char> { seq!['e'] }
pub open spec fn lit_s() -> Seq<char> { seq!['s'] }
pub open spec fn lit_t() -> Seq<char> { seq!['T'] }
pub open spec fn lit_a() -> Seq<char> { seq!['a'] }
pub open spec fn lit_p() -> Seq<char> { seq!['p'] }

pub open spec fn agg_trade() -> Seq<char> {
    seq!['a', 'g', 'g', 'T', 'r', 'a', 'd', 'e']
}

/// What a feed message means: an aggregated trade when its `e` member is the
/// text `aggTrade` and its `s`, `T`, `a` and `p` members hold a symbol, a
/// time, an id and a price; nothing otherwise.
pub open spec fn aggr_of(v: Json) -> Option<(Seq<char>, u64, u64, Price)> {
    if member_text(v, lit_e()) != Some(agg_trade()) {
        None
    } else {
        match (member_text(v, lit_s()), member_u64(v, lit_t()), member_u64(v, lit_a()), member_text(v, lit_p())) {
            (Some(symbol), Some(time), Some(id), Some(p)) => match price_of(p) {
                Ok(price) => Some((symbol, time, id, price)),
                Err(_) => None,
            },
            _ => None,
        }
    }
}

fn text_member<'a>(v: &'a Json, key: &str) -> (r: Option<&'a String>)
    ensures
        match r {
            Some(s) => member_text(*v, key@) == Some(s@),
            None => member_text(*v, key@) is None,
        },
{
    match get(v, key) {
        Some(Json::Text(s)) => Some(s),
        _ => None,
    }
}

fn u64_member(v: &Json, key: &str) -> (r: Option<u64>)
    ensures
        r == member_u64(*v, key@),
{
    match get(v, key) {
        Some(Json::Unsigned(n)) => Some(*n),
        _ => None,
    }
}

impl AggrMessage {
    /// Reads an aggregated-trade message; any other message gives `None`.
    pub fn from_json(value: &Json) -> (r: Option<AggrMessage>)
        ensures
            match aggr_of(*value) {
                Some((symbol, time, id, price)) => r matches Some(m) && m.symbol@ == symbol
                    && m.timestamp == time && m.trade_id == id && m.price == price,
                None => r is None,
            },
    {
        proof {
            reveal_strlit("e");
            reveal_strlit("s");
            reveal_strlit("T");
            reveal_strlit("a");
            reveal_strlit("p");
            reveal_strlit("aggTrade");
        }
        assert("e"@ =~= lit_e());
        assert("s"@ =~= lit_s());
        assert("T"@ =~= lit_t());
        assert("a"@ =~= lit_a());
        assert("p"@ =~= lit_p());
        assert("aggTrade"@ =~= agg_trade());
        let event = text_member(value, "e")?;
        let expected = String::from_str("aggTrade");
        if !(*event == expected) {
            return None;
        }
        let symbol = text_member(value, "s")?;
        let timestamp = u64_member(value, "T")?;
        let trade_id = u64_member(value, "a")?;
        let raw_price = text_member(value, "p")?;
        let cs = chars_of(raw_price.as_str());
        assert(cs@.subrange(0, cs@.len() as int) =~= cs@);
        match parse_price_in(&cs, 0, cs.len()) {
            Ok(price) => Some(AggrMessage { symbol: symbol.clone(), timestamp, trade_id, price }),
            Err(_) => None,
        }
    }
}

/// Why a feed connection ended.
#[derive(Debug, Clone, PartialEq, Eq)]
pub enum ListenError {
    ConnectError(String),
    ProtocolError(String),
    /// A text frame that is not JSON, with the decoder's message.
    InvalidPacket(String),
    /// No pong for longer than the timeout; the milliseconds since the last one.
    Timeout(u64),
    EndOfStream,
    /// Nobody listens to the feed any more.
    ListenerClosed,
}

/// Whether the feed should connect again after `err`: always, but when
/// nobody listens any more.
pub fn should_reconnect(err: &ListenError) -> (r: bool)
    ensures
        r == !(*err is ListenerClosed),
{
    !matches!(err, ListenError::ListenerClosed)
}

/// Milliseconds between keep-alive ticks.
pub const KEEP_ALIVE_MS: u64 = 1000;

/// Milliseconds without a pong after which the connection counts as dead.
pub const TIMEOUT_MS: u64 = 10000;

/// What happened on a connection.
#[derive(Debug)]
pub enum FeedEvent {
    /// A text frame, decoded as JSON, or the decoder's message.
    Text(Result<Json, String>),
    Ping(Vec<u8>),
    Pong,
    /// The keep-alive ticker fired.
    KeepAlive,
    ProtocolError(String),
}

/// What the connection should do about an event.
#[derive(Debug, Clone, PartialEq)]
pub enum FeedAction {
    Nothing,
    /// Hand the trade to the subscribers.
    Publish(AggrMessage),
    SendPong(Vec<u8>),
    SendPing,
    /// Close the connection with this error.
    Fail(ListenError),
}

pub open spec fn timed_out(last: nat, now: nat) -> bool {
    now > last && now - last > TIMEOUT_MS
}

/// The state of one connection: when its last pong came.
pub struct FeedSession {
    pub last_heartbeat: u64,
}

impl FeedSession {
    /// A session on a connection opened at `now`.
    pub fn start(now: u64) -> (r: FeedSession)
        ensures
            r.last_heartbeat == now,
    {
        FeedSession { last_heartbeat: now }
    }

    /// Decides what to do about `event`, received at `now` (milliseconds).
    pub fn handle(&mut self, now: u64, event: FeedEvent) -> (action: FeedAction)
        ensures
            final(self).last_heartbeat == if event is Pong {
                now
            } else {
                old(self).last_heartbeat
            },
            match event {
                FeedEvent::Text(Ok(v)) => match aggr_of(v) {
                    Some((symbol, time, id, price)) => action matches FeedAction::Publish(m)
                        && m.symbol@ == symbol && m.timestamp == time && m.trade_id == id && m.price
                        == price,
                    None => action == FeedAction::Nothing,
                },
                FeedEvent::Text(Err(msg)) => action == FeedAction::Fail(
                    ListenError::InvalidPacket(msg),
                ),
                FeedEvent::Ping(payload) => action == FeedAction::SendPong(payload),
                FeedEvent::Pong => action == FeedAction::Nothing,
                FeedEvent::KeepAlive => if timed_out(old(self).last_heartbeat as nat, now as nat) {
                    action == FeedAction::Fail(
                        ListenError::Timeout((now - old(self).last_heartbeat) as u64),
                    )
                } else {
                    action == FeedAction::SendPing
                },
                FeedEvent::ProtocolError(msg) => action == FeedAction::Fail(
                    ListenError::ProtocolError(msg),
                ),
            },
    {
        match event {
            FeedEvent::Text(Ok(v)) => match AggrMessage::from_json(&v) {
                Some(m) => FeedAction::Publish(m),
                None => FeedAction::Nothing,
            },
            FeedEvent::Text(Err(msg)) => FeedAction::Fail(ListenError::InvalidPacket(msg)),
            FeedEvent::Ping(payload) => FeedAction::SendPong(payload),
            FeedEvent::Pong => {
                self.last_heartbeat = now;
                FeedAction::Nothing
            },
            FeedEvent::KeepAlive => {
                if now > self.last_heartbeat && now - self.last_heartbeat > TIMEOUT_MS {
                    FeedAction::Fail(ListenError::Timeout(now - self.last_heartbeat))
                } else {
                    FeedAction::SendPing
                }
            },
            FeedEvent::ProtocolError(msg) => FeedAction::Fail(ListenError::ProtocolError(msg)),
        }
    }
}

/// When the `i`th keep-alive tick of a connection opened at `start` fires.
pub open spec fn tick_time(start: nat, i: nat) -> nat {
    start + i * (KEEP_ALIVE_MS as nat)
}

/// The last pong time seen by tick `i` (from 1) when the peer answers each
/// tick's ping with a pong before the next tick, or never answers at all.
pub open spec fn heartbeat_at_tick(start: nat, i: nat, answers: bool) -> nat {
    if answers && i > 1 {
        tick_time(start, (i - 1) as nat)
    } else {
        start
    }
}

/// A peer that answers every ping never makes the connection time out.
pub proof fn lemma_answered_pings_keep_alive(start: nat, i: nat)
    requires
        i >= 1,
    ensures
        !timed_out(heartbeat_at_tick(start, i, true), tick_time(start, i)),
{
    if i > 1 {
        assert(tick_time(start, i) - tick_time(start, (i - 1) as nat) == KEEP_ALIVE_MS) by (nonlinear_arith)
            requires i > 1;
    } else {
        assert(i * KEEP_ALIVE_MS == KEEP_ALIVE_MS) by (nonlinear_arith)
            requires i == 1;
    }
}

/// A peer that never answers makes the connection time out at tick 11, that
/// is 11 seconds after connecting, and not before.
pub proof fn lemma_silence_times_out(start: nat, i: nat)
    requires
        i >= 1,
    ensures
        timed_out(heartbeat_at_tick(start, i, false), tick_time(start, i)) <==> i >= 11,
{
    if i >= 11 {
        assert(i * KEEP_ALIVE_MS >= 11000) by (nonlinear_arith)
            requires i >= 11;
    } else {
        assert(i * KEEP_ALIVE_MS <= 10000) by (nonlinear_arith)
            requires i <= 10;
    }
}

} // verus!

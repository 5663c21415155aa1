//! The decisions of the HTTP front: who may log in, which exchange a request
//! names, how densely its trades are sampled, and how failures are answered.
use vstd::prelude::*;
use crate::reader::{Exchange, HttpZipReaderError, TradeReaderError};
use crate::trade::Trade;

verus! {

/// The user name and password the site asks for.
#[derive(Debug, Clone)]
pub struct Credentials {
    pub user: String,
    pub password: String,
}

/// The credentials configured from an optional user and an optional
/// password: none when neither is given, else both, a missing one empty.
pub fn credentials_from(user: Option<String>, password: Option<String>) -> (r: Option<Credentials>)
    ensures
        (user is None && password is None) <==> r is None,
        r matches Some(c) ==> (c.user@ == match user {
            Some(u) => u@,
            None => Seq::<char>::empty(),
        } && c.password@ == match password {
            Some(p) => p@,
            None => Seq::<char>::empty(),
        }),
{
    if user.is_none() && password.is_none() {
        return None;
    }
    let user = match user {
        Some(u) => u,
        None => String::new(),
    };
    let password = match password {
        Some(p) => p,
        None => String::new(),
    };
    Some(Credentials { user, password })
}

/// Whether a request that presents `user` and `password` may pass: always
/// when no credentials are configured, else only with both matching.
pub fn login_allowed(server: &Option<Credentials>, user: &str, password: Option<&str>) -> (r: bool)
    ensures
        r == match server {
            None => true,
            Some(c) => c.user@ == user@ && (password matches Some(p) && p@ == c.password@),
        },
{
    match server {
        None => true,
        Some(c) => {
            let given_user = String::from_str(user);
            match password {
                Some(p) => {
                    let given_password = String::from_str(p);
                    given_user == c.user && given_password == c.password
                },
                None => false,
            }
        },
    }
}

/// The exchange a request path names.
pub fn exchange_of(name: &str) -> (r: Option<Exchange>)
    ensures
        r == if name@ == seq!['b', 'i', 'n', 'a', 'n', 'c', 'e'] {
            Some(Exchange::Binance)
        } else if name@ == seq!['o', 'l', 'x'] {
            Some(Exchange::Olx)
        } else {
            None::<Exchange>
        },
{
    let n = String::from_str(name);
    let binance = String::from_str("binance");
    let olx = String::from_str("olx");
    proof {
        reveal_strlit("binance");
        reveal_strlit("olx");
    }
    assert("binance"@ =~= seq!['b', 'i', 'n', 'a', 'n', 'c', 'e']);
    assert("olx"@ =~= seq!['o', 'l', 'x']);
    if n == binance {
        Some(Exchange::Binance)
    } else if n == olx {
        Some(Exchange::Olx)
    } else {
        None
    }
}

impl Exchange {
    /// Of how many trades of this exchange's archives one is served.
    pub fn sample_stride(&self) -> (r: usize)
        ensures
            r > 0,
            *self == Exchange::Binance ==> r == 50,
            *self == Exchange::Olx ==> r == 10,
    {
        match self {
            Exchange::Binance => 50,
            Exchange::Olx => 10,
        }
    }
}

/// Why a dataset request failed.
#[derive(Debug, Clone, PartialEq, Eq)]
pub enum DatasetError {
    /// The date is not `YYYY-MM-DD`; the date parser's message.
    ParseDate(String),
    ParseCoinPair,
    UnknownExchange,
    NotFound,
    HttpZipReader(HttpZipReaderError),
}

impl DatasetError {
    /// The error for a failed archive fetch: a missing archive is the
    /// client's `NotFound`, anything else the server's failure.
    pub fn from_reader_error(e: HttpZipReaderError) -> (r: DatasetError)
        ensures
            e == HttpZipReaderError::NotFound ==> r == DatasetError::NotFound,
            e != HttpZipReaderError::NotFound ==> r == DatasetError::HttpZipReader(e),
    {
        match e {
            HttpZipReaderError::NotFound => DatasetError::NotFound,
            other => DatasetError::HttpZipReader(other),
        }
    }

    pub open spec fn status_of(&self) -> u16 {
        match self {
            DatasetError::ParseDate(_) | DatasetError::ParseCoinPair
            | DatasetError::UnknownExchange => 400u16,
            DatasetError::NotFound => 404u16,
            DatasetError::HttpZipReader(_) => 500u16,
        }
    }

    pub open spec fn text_of(&self) -> Seq<char> {
        match self {
            DatasetError::ParseDate(m) => "Could not parse date: "@ + m@,
            DatasetError::ParseCoinPair => "Could not parse coin pair"@,
            DatasetError::UnknownExchange => "Unknown exchange"@,
            DatasetError::NotFound => "Dataset for given parameters not found"@,
            DatasetError::HttpZipReader(_) => "Zip reader error"@,
        }
    }

    /// The HTTP status of the answer.
    pub fn status_code(&self) -> (r: u16)
        ensures
            r == self.status_of(),
    {
        match self {
            DatasetError::ParseDate(_) | DatasetError::ParseCoinPair
            | DatasetError::UnknownExchange => 400,
            DatasetError::NotFound => 404,
            DatasetError::HttpZipReader(_) => 500,
        }
    }

    /// What the error says about itself.
    pub fn describe(&self) -> (r: String)
        ensures
            r@ == self.text_of(),
    {
        match self {
            DatasetError::ParseDate(m) => {
                let mut s = String::from_str("Could not parse date: ");
                s.append(m.as_str());
                s
            },
            DatasetError::ParseCoinPair => String::from_str("Could not parse coin pair"),
            DatasetError::UnknownExchange => String::from_str("Unknown exchange"),
            DatasetError::NotFound => String::from_str("Dataset for given parameters not found"),
            DatasetError::HttpZipReader(_) => String::from_str("Zip reader error"),
        }
    }

    /// The message sent to the client: the error's own words for a client
    /// error, a generic one for a server error.
    pub fn error_message(&self) -> (r: String)
        ensures
            self.status_of() < 500 ==> r@ == self.text_of(),
            self.status_of() >= 500 ==> r@ == "Internal server error"@,
    {
        if self.status_code() < 500 {
            self.describe()
        } else {
            String::from_str("Internal server error")
        }
    }
}

/// A stream element as served: the trade, or nothing for a failed one.
pub fn keep_trade(result: Result<Trade, TradeReaderError>) -> (r: Option<Trade>)
    ensures
        match result {
            Ok(t) => r == Some(t),
            Err(_) => r is None,
        },
{
    match result {
        Ok(t) => Some(t),
        Err(_) => None,
    }
}

} // verus!

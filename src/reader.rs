//! Turning the lines of a trades archive into trades: header skipping,
//! sampling and per-line parsing, both over a whole list of lines and one
//! line at a time.
use vstd::prelude::*;
use crate::trade::{Trade, ParseTradeError, TradeFailure, parsed_view};

verus! {

/// The exchanges whose archives can be read, each with its own line format.
#[derive(Debug, Clone, Copy, PartialEq, Eq, Structural)]
pub enum Exchange {
    Binance,
    Olx,
}

pub open spec fn line_trade(exchange: Exchange, line: Seq<char>) -> Result<Trade, TradeFailure> {
    match exchange {
        Exchange::Binance => crate::binance::trade_of(line),
        Exchange::Olx => crate::olx::trade_of(line),
    }
}

/// Reads one data line with the exchange's parser.
pub fn parse_line(exchange: Exchange, line: String) -> (r: Result<Trade, ParseTradeError>)
    ensures
        parsed_view(r) == line_trade(exchange, line@),
{
    match exchange {
        Exchange::Binance => crate::binance::parse_csv_trade(line),
        Exchange::Olx => crate::olx::parse_trade(line),
    }
}

/// Why an archive could not be opened.
#[derive(Debug, Clone, PartialEq, Eq)]
pub enum ZipReaderError {
    /// The decompressor's message.
    Unzip(String),
    /// The archive holds no entry.
    EmptyZip,
}

/// Why fetching an archive failed.
#[derive(Debug, Clone, PartialEq, Eq)]
pub enum HttpZipReaderError {
    /// The HTTP client's message.
    SendRequest(String),
    ZipReader(ZipReaderError),
    NotFound,
    InvalidStatusCode(u16),
}

/// One failed element of a trade stream.
#[derive(Debug, Clone, PartialEq, Eq)]
pub enum TradeReaderError {
    ZipReader(ZipReaderError),
    /// A read error of the decompressed entry, with its message.
    IO(String),
    Parse(ParseTradeError),
}

/// One element of a trade stream.
pub type ReadResult = Result<Trade, TradeReaderError>;

/// What an archive's HTTP status means: success for 2xx, `NotFound` for 404,
/// anything else is refused.
pub fn check_status(code: u16) -> (r: Result<(), HttpZipReaderError>)
    ensures
        200 <= code <= 299 <==> r is Ok,
        code == 404 <==> r == Err::<(), HttpZipReaderError>(HttpZipReaderError::NotFound),
        !(200 <= code <= 299) && code != 404 <==> r == Err::<(), HttpZipReaderError>(
            HttpZipReaderError::InvalidStatusCode(code),
        ),
{
    if 200 <= code && code <= 299 {
        Ok(())
    } else if code == 404 {
        Err(HttpZipReaderError::NotFound)
    } else {
        Err(HttpZipReaderError::InvalidStatusCode(code))
    }
}

/// The lines at positions `0, n, 2n, ...` of `data`.
pub open spec fn sampled(data: Seq<Seq<char>>, n: nat) -> Seq<Seq<char>>
    decreases data.len(),
{
    if data.len() == 0 || n == 0 {
        Seq::empty()
    } else {
        let rest = if n <= data.len() {
            data.subrange(n as int, data.len() as int)
        } else {
            Seq::empty()
        };
        seq![data[0]] + sampled(rest, n)
    }
}

/// What reading an archive whose decoded lines are `lines` yields: the first
/// line is the header and is left out, of the data lines every `n`th is
/// parsed, starting with the first.
pub open spec fn assembled(lines: Seq<Seq<char>>, exchange: Exchange, n: nat) -> Seq<
    Result<Trade, TradeFailure>,
> {
    let data = if lines.len() == 0 {
        lines
    } else {
        lines.drop_first()
    };
    sampled(data, n).map_values(|l: Seq<char>| line_trade(exchange, l))
}

pub open spec fn strings_view(v: Seq<String>) -> Seq<Seq<char>> {
    v.map_values(|s: String| s@)
}

/// The elements of a trade stream, each parse error seen through its view.
/// Only trades and parse errors are described: the streams this is applied
/// to hold no other element (see `only_parse_errors`).
pub open spec fn results_view(v: Seq<Result<Trade, TradeReaderError>>) -> Seq<
    Result<Trade, TradeFailure>,
> {
    v.map_values(
        |r: Result<Trade, TradeReaderError>|
            match r {
                Ok(t) => Ok(t),
                Err(TradeReaderError::Parse(e)) => Err(e@),
                Err(_) => Err(TradeFailure::MissingTradeId),
            },
    )
}

proof fn lemma_sampled_one(data: Seq<Seq<char>>)
    ensures
        sampled(data, 1) == data,
    decreases data.len(),
{
    if data.len() > 0 {
        lemma_sampled_one(data.subrange(1, data.len() as int));
        assert(seq![data[0]] + data.subrange(1, data.len() as int) =~= data);
    } else {
        assert(data =~= Seq::<Seq<char>>::empty());
    }
}

/// The `j`th sampled line is line `j * n` of `data`.
pub open spec fn sampled_at(data: Seq<Seq<char>>, n: nat, j: int) -> bool {
    j * n < data.len() && sampled(data, n)[j] == data[j * n]
}

proof fn lemma_sampled_positions(data: Seq<Seq<char>>, n: nat)
    requires
        n > 0,
    ensures
        sampled(data, n).len() == (data.len() + n - 1) / n as int,
        forall|j: int| 0 <= j < sampled(data, n).len() ==> #[trigger] sampled_at(data, n, j),
    decreases data.len(),
{
    if data.len() == 0 {
        assert((n - 1) / n as int == 0) by (nonlinear_arith)
            requires n > 0;
        assert(sampled(data, n).len() == 0);

    } else {
        let rest = if n <= data.len() {
            data.subrange(n as int, data.len() as int)
        } else {
            Seq::empty()
        };
        lemma_sampled_positions(rest, n);
        let len = data.len() as int;
        if n <= data.len() {
            assert((len + n - 1) / n as int == 1 + ((len - n) + n - 1) / n as int) by (nonlinear_arith)
                requires n > 0, len >= n;
        } else {
            assert((len + n - 1) / n as int == 1) by (nonlinear_arith)
                requires n > 0, len < n, len > 0;
        }
        assert forall|j: int| 0 <= j < sampled(data, n).len() implies #[trigger] sampled_at(data, n, j) by {
            assert(j < sampled(rest, n).len() + 1);
            if j > 0 {
                assert(sampled(data, n)[j] == sampled(rest, n)[j - 1]);
                assert(sampled_at(rest, n, j - 1));
                assert(n <= data.len());
                let k = (j - 1) * n;
                assert(k < rest.len());
                assert(rest[k] == data[k + n]);
                assert(k + n == j * n) by (nonlinear_arith)
                    requires k == (j - 1) * n;
                assert(j * n < data.len());
            } else {
                assert(j * n == 0) by (nonlinear_arith)
                    requires j == 0;
                assert(j * n < data.len());
            }
        }
    }
}

/// The data lines that `ZipCsvTradeReader::next` parses when handed the data
/// lines `data` one at a time after the header: a line is parsed when the
/// number of data lines before it is a multiple of `n`.
pub open spec fn stream_picked(data: Seq<Seq<char>>, n: nat) -> Seq<Seq<char>>
    decreases data.len(),
{
    if data.len() == 0 {
        Seq::empty()
    } else {
        let prev = stream_picked(data.drop_last(), n);
        if (data.len() - 1) % (n as int) == 0 {
            prev.push(data.last())
        } else {
            prev
        }
    }
}

pub open spec fn picked_at(data: Seq<Seq<char>>, n: nat, j: int) -> bool {
    j * n < data.len() && stream_picked(data, n)[j] == data[j * n]
}

proof fn lemma_picked_positions(data: Seq<Seq<char>>, n: nat)
    requires
        n > 0,
    ensures
        stream_picked(data, n).len() == (data.len() + n - 1) / n as int,
        forall|j: int| 0 <= j < stream_picked(data, n).len() ==> #[trigger] picked_at(data, n, j),
    decreases data.len(),
{
    if data.len() == 0 {
        assert((n - 1) / n as int == 0) by (nonlinear_arith)
            requires n > 0;
    } else {
        let d = data.drop_last();
        lemma_picked_positions(d, n);
        let len = d.len() as int;
        let prev = stream_picked(d, n);
        if len % (n as int) == 0 {
            assert((len + 1 + n - 1) / n as int == (len + n - 1) / n as int + 1
                && (len + n - 1) / n as int * n == len) by (nonlinear_arith)
                requires n > 0, len >= 0, len % (n as int) == 0;
        } else {
            assert((len + 1 + n - 1) / n as int == (len + n - 1) / n as int) by (nonlinear_arith)
                requires n > 0, len >= 0, len % (n as int) != 0;
        }
        assert forall|j: int| 0 <= j < stream_picked(data, n).len() implies #[trigger] picked_at(
            data,
            n,
            j,
        ) by {
            if j < prev.len() {
                assert(picked_at(d, n, j));
                assert(data[j * n] == d[j * n]);
            } else {
                assert(len % (n as int) == 0);
                assert(j == (len + n - 1) / n as int);
            }
        }
    }
}

/// Handing the data lines to the streaming reader one at a time parses
/// exactly the lines that `assemble` parses, in the same order.
pub proof fn lemma_stream_matches_batch(data: Seq<Seq<char>>, n: nat)
    requires
        n > 0,
    ensures
        stream_picked(data, n) == sampled(data, n),
{
    lemma_picked_positions(data, n);
    lemma_sampled_positions(data, n);
    assert forall|j: int| 0 <= j < sampled(data, n).len() implies stream_picked(data, n)[j]
        == #[trigger] sampled(data, n)[j] by {
        assert(picked_at(data, n, j));
        assert(sampled_at(data, n, j));
    }
    assert(stream_picked(data, n) =~= sampled(data, n));
}

/// With a stride of one, an archive of a header and `k` data lines yields
/// exactly `k` results, the parses of the data lines in their order.
pub proof fn lemma_full_stride(lines: Seq<Seq<char>>, exchange: Exchange)
    requires
        lines.len() >= 1,
    ensures
        assembled(lines, exchange, 1).len() == lines.len() - 1,
        forall|j: int|
            0 <= j < lines.len() - 1 ==> #[trigger] assembled(lines, exchange, 1)[j] == line_trade(
                exchange,
                lines[j + 1],
            ),
{
    lemma_sampled_one(lines.drop_first());
}

/// With a stride of `n`, the `j`th result is the parse of data line `j * n`
/// (line `1 + j * n` of the archive, counting the header as line 0), and
/// there is one result for each of the data lines `0, n, 2n, ...`.
pub proof fn lemma_sampling(lines: Seq<Seq<char>>, exchange: Exchange, n: nat)
    requires
        lines.len() >= 1,
        n > 0,
    ensures
        assembled(lines, exchange, n).len() == (lines.len() - 1 + n - 1) / n as int,
        assembled(lines, exchange, n).len() > 0 ==> 1 + (assembled(lines, exchange, n).len() - 1)
            * n < lines.len(),
        forall|j: int|
            0 <= j < assembled(lines, exchange, n).len() ==> #[trigger] assembled(
                lines,
                exchange,
                n,
            )[j] == line_trade(exchange, lines[1 + j * n]),
{
    let data = lines.drop_first();
    lemma_sampled_positions(data, n);
    assert forall|j: int| 0 <= j < assembled(lines, exchange, n).len() implies 1 + j * n
        < lines.len() && #[trigger] assembled(lines, exchange, n)[j] == line_trade(
        exchange,
        lines[1 + j * n],
    ) by {
        assert(sampled_at(data, n, j));
    }
    if assembled(lines, exchange, n).len() > 0 {
        assert(sampled_at(data, n, assembled(lines, exchange, n).len() - 1));
    }
}

/// The header line is never parsed: whatever it holds, the results are the same.
pub proof fn lemma_header_ignored(
    header: Seq<char>,
    other: Seq<char>,
    data: Seq<Seq<char>>,
    exchange: Exchange,
    n: nat,
)
    ensures
        assembled(seq![header] + data, exchange, n) == assembled(seq![other] + data, exchange, n),
{
    assert((seq![header] + data).drop_first() =~= data);
    assert((seq![other] + data).drop_first() =~= data);
}

/// What the decompressor reported when asked for the next line.
#[derive(Debug, Clone, PartialEq, Eq)]
pub enum ReadOutcome {
    /// A line, with its line break.
    Line(String),
    /// The entry is exhausted.
    End,
    /// The bytes read were not valid text; the message says why.
    InvalidData(String),
    /// Any other read error, with its message.
    Failed(String),
}

/// What to do after a read.
#[derive(Debug, PartialEq, Eq)]
pub enum StreamStep {
    /// Nothing to hand on: read the next line.
    Skip,
    /// Read again at the same place.
    Retry,
    /// Hand this element on.
    Emit(Result<Trade, TradeReaderError>),
    /// The stream is over: stop reading.
    Finish,
}

/// Reads an archive one decoded line at a time: skips the header, passes on
/// every `stride`th data line parsed, retries once a first read that found
/// invalid bytes, and ends at the entry's end or at the first read error.
pub struct ZipCsvTradeReader {
    pub exchange: Exchange,
    pub stride: usize,
    pub header_seen: bool,
    pub retried: bool,
    pub done: bool,
    /// Data lines still to skip before the next one is parsed.
    pub countdown: usize,
    /// Data lines read so far.
    pub data_seen: Ghost<nat>,
}

impl ZipCsvTradeReader {
    pub open spec fn wf(&self) -> bool {
        &&& self.stride > 0
        &&& self.countdown < self.stride
        &&& self.countdown == if self.data_seen@ % (self.stride as nat) == 0 {
            0
        } else {
            self.stride - self.data_seen@ % (self.stride as nat)
        }
        &&& !self.header_seen ==> self.data_seen@ == 0
    }

    /// Starts reading an archive; it must hold an entry.
    pub fn new(entry_found: bool, exchange: Exchange, stride: usize) -> (r: Result<
        ZipCsvTradeReader,
        ZipReaderError,
    >)
        requires
            stride > 0,
        ensures
            entry_found <==> r is Ok,
            !entry_found ==> r == Err::<ZipCsvTradeReader, ZipReaderError>(ZipReaderError::EmptyZip),
            r matches Ok(s) ==> s.wf() && s.exchange == exchange && s.stride == stride
                && !s.header_seen && !s.retried && !s.done,
    {
        if !entry_found {
            return Err(ZipReaderError::EmptyZip);
        }
        assert(0nat % (stride as nat) == 0) by (nonlinear_arith)
            requires stride > 0;
        Ok(
            ZipCsvTradeReader {
                exchange,
                stride,
                header_seen: false,
                retried: false,
                done: false,
                countdown: 0,
                data_seen: Ghost(0),
            },
        )
    }

    /// Takes in what the last read gave and says what to do next.
    pub fn next(&mut self, outcome: ReadOutcome) -> (step: StreamStep)
        requires
            old(self).wf(),
        ensures
            final(self).wf(),
            final(self).exchange == old(self).exchange,
            final(self).stride == old(self).stride,
            old(self).done ==> step == StreamStep::Finish && final(self).done,
            !old(self).done ==> match outcome {
                ReadOutcome::Line(line) => !final(self).done && final(self).header_seen && if !old(
                    self,
                ).header_seen {
                    step == StreamStep::Skip && final(self).data_seen@ == 0
                } else {
                    &&& final(self).data_seen@ == old(self).data_seen@ + 1
                    &&& if old(self).data_seen@ % (old(self).stride as nat) == 0 {
                        step matches StreamStep::Emit(r) && results_view(seq![r]) == seq![
                            line_trade(old(self).exchange, line@),
                        ] && (r is Ok || r matches Err(TradeReaderError::Parse(_)))
                    } else {
                        step == StreamStep::Skip
                    }
                },
                ReadOutcome::End => step == StreamStep::Finish && final(self).done,
                ReadOutcome::InvalidData(msg) => if !old(self).header_seen && !old(self).retried {
                    step == StreamStep::Retry && final(self).retried && !final(self).done
                        && !final(self).header_seen
                } else {
                    step == StreamStep::Emit(Err(TradeReaderError::IO(msg))) && final(self).done
                },
                ReadOutcome::Failed(msg) => step == StreamStep::Emit(
                    Err(TradeReaderError::IO(msg)),
                ) && final(self).done,
            },
    {
        if self.done {
            return StreamStep::Finish;
        }
        match outcome {
            ReadOutcome::Line(line) => {
                if !self.header_seen {
                    self.header_seen = true;
                    return StreamStep::Skip;
                }
                let ghost j = self.data_seen@;
                let ghost n = self.stride as nat;
                let emit = self.countdown == 0;
                proof {
                    lemma_countdown_step(j, n);
                }
                self.data_seen = Ghost(j + 1);
                if emit {
                    self.countdown = self.stride - 1;
                    let parsed = match parse_line(self.exchange, line) {
                        Ok(t) => Ok(t),
                        Err(e) => Err(TradeReaderError::Parse(e)),
                    };
                    StreamStep::Emit(parsed)
                } else {
                    self.countdown = self.countdown - 1;
                    StreamStep::Skip
                }
            },
            ReadOutcome::End => {
                self.done = true;
                StreamStep::Finish
            },
            ReadOutcome::InvalidData(msg) => {
                if !self.header_seen && !self.retried {
                    self.retried = true;
                    StreamStep::Retry
                } else {
                    self.done = true;
                    StreamStep::Emit(Err(TradeReaderError::IO(msg)))
                }
            },
            ReadOutcome::Failed(msg) => {
                self.done = true;
                StreamStep::Emit(Err(TradeReaderError::IO(msg)))
            },
        }
    }
}

proof fn lemma_countdown_step(j: nat, n: nat)
    requires
        n > 0,
    ensures
        (j + 1) % n == if j % n == n - 1 {
            0
        } else {
            j % n + 1
        },
{
    assert((j + 1) % n == if j % n == n - 1 { 0 } else { j % n + 1 }) by (nonlinear_arith)
        requires n > 0;
}

/// Every element is either a trade or a parse error.
pub open spec fn only_parse_errors(v: Seq<Result<Trade, TradeReaderError>>) -> bool {
    forall|i: int| 0 <= i < v.len() ==> (#[trigger] v[i] is Ok || v[i] matches Err(
        TradeReaderError::Parse(_),
    ))
}

/// Reads the decoded lines of an archive: the header is skipped, and of the
/// data lines the ones at positions `0, n, 2n, ...` are parsed, in order.
pub fn assemble(lines: &Vec<String>, exchange: Exchange, sample_every_n_trade: usize) -> (r: Vec<
    Result<Trade, TradeReaderError>,
>)
    requires
        sample_every_n_trade > 0,
    ensures
        results_view(r@) == assembled(strings_view(lines@), exchange, sample_every_n_trade as nat),
        only_parse_errors(r@),
{
    let ghost all = strings_view(lines@);
    let ghost data = if all.len() == 0 {
        all
    } else {
        all.drop_first()
    };
    let ghost n = sample_every_n_trade as nat;
    let mut out: Vec<Result<Trade, TradeReaderError>> = Vec::new();
    let len = lines.len();
    if len == 0 {
        assert(results_view(out@) =~= sampled(data, n).map_values(
            |l: Seq<char>| line_trade(exchange, l),
        ));
        return out;
    }
    let mut i: usize = 1;
    assert(data =~= all.subrange(1, len as int));
    while i < len
        invariant
            1 <= i <= len,
            len == lines.len(),
            n == sample_every_n_trade as nat,
            n > 0,
            all.len() == len,
            forall|k: int| i <= k < len ==> #[trigger] lines@[k]@ == all[k],
            only_parse_errors(out@),
            results_view(out@) + sampled(all.subrange(i as int, len as int), n).map_values(
                |l: Seq<char>| line_trade(exchange, l),
            ) == sampled(data, n).map_values(|l: Seq<char>| line_trade(exchange, l)),
        decreases len - i,
    {
        let ghost s = all.subrange(i as int, len as int);
        let ghost rest = if n <= s.len() {
            s.subrange(n as int, s.len() as int)
        } else {
            Seq::empty()
        };
        assert(s.len() == len - i);
        let line = lines[i].clone();
        proof {
            assert(line@ == s[0]);
        }
        let parsed = match parse_line(exchange, line) {
            Ok(t) => Ok(t),
            Err(e) => Err(TradeReaderError::Parse(e)),
        };
        let ghost prev = out@;
        out.push(parsed);
        assert(results_view(out@) =~= results_view(prev).push(line_trade(exchange, s[0])));
        assert(sampled(s, n) == seq![s[0]] + sampled(rest, n));
        if len - i <= sample_every_n_trade {
            assert(rest =~= Seq::<Seq<char>>::empty());
            assert(sampled(rest, n) =~= Seq::<Seq<char>>::empty());
            assert(sampled(all.subrange(len as int, len as int), n) =~= Seq::<Seq<char>>::empty());
            i = len;
        } else {
            i = i + sample_every_n_trade;
            assert(rest =~= all.subrange(i as int, len as int));
        }
        assert(results_view(out@) + sampled(all.subrange(i as int, len as int), n).map_values(
            |l: Seq<char>| line_trade(exchange, l),
        ) =~= sampled(data, n).map_values(|l: Seq<char>| line_trade(exchange, l)));
    }
    proof {
        assert(all.subrange(i as int, len as int) =~= Seq::<Seq<char>>::empty());
        assert(sampled(all.subrange(i as int, len as int), n) =~= Seq::<Seq<char>>::empty());
        assert(results_view(out@) =~= sampled(data, n).map_values(
            |l: Seq<char>| line_trade(exchange, l),
        ));
    }
    out
}

} // verus!

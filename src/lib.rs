//! Streaming ingestion of exchange trade archives and a live trade feed:
//! line parsing, sampling, JSON output and the feed session's decisions.
pub mod binance;
pub mod date;
pub mod feed;
pub mod olx;
pub mod output;
pub mod price;
pub mod reader;
pub mod text;
pub mod trade;
pub mod website;

//! Verified core of a market-data downloader: provider-specific request
//! building, decoding of paged OHLCV responses into canonical bars, and
//! incremental CSV/JSON output planning.  All I/O (HTTP, files, clock) is
//! performed by the embedding program, which drives the engine defined here.

pub mod adapter;
pub mod calendar;
pub mod engine;
pub mod decimal;
pub mod jsonval;
pub mod laws;
pub mod render;
pub mod request;
pub mod sink;
pub mod strnum;
pub mod types;
pub mod urlenc;

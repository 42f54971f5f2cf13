use vstd::prelude::*;

pub mod alias;
pub mod channel;
pub mod circuit_breaker;
pub mod clean;
pub mod config;
pub mod fields;
pub mod guide;
pub mod gzip;
pub mod http;
pub mod index;
pub mod iptv_org;
pub mod jio;
pub mod jio_epg;
pub mod json;
pub mod matching;
pub mod pipeline;
pub mod playlist;
pub mod provider;
pub mod publish;
pub mod reread;
pub mod retry;
pub mod schedule;
pub mod similarity;
pub mod text;
pub mod time;
pub mod tvg;
pub mod xmltv;
pub mod xmltv_count;
pub mod zee5;

verus! {

} // verus!

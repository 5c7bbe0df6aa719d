//! A verified core for a server that turns recent scholarly publications into RSS feeds.

pub mod abstracts;
pub mod cache;
pub mod calendar;
pub mod channel;
pub mod cli;
pub mod config;
pub mod dates;
pub mod encoding;
pub mod openalex;
pub mod params;
pub mod queries;
pub mod reply;
pub mod request;
pub mod serve;
pub mod text;
pub mod works;

//! A verified engine for acquiring remote galleries: a bounded worker pool
//! runs one chunked transfer per resource descriptor under a concurrency cap,
//! a progress ledger accounts for completed work, and an archiver streams the
//! downloaded files into a single compressed container.

pub mod aniyomi;
pub mod archive;
pub mod cli;
pub mod config;
pub mod downloader;
pub mod gallery;
pub mod logger;
pub mod parser;
pub mod parsers;
pub mod pool;
pub mod progress;
pub mod sanitize;
pub mod tag;
pub mod text;
pub mod transfer;
pub mod version;

//! A verified core for a domain reconnaissance crawler.
//!
//! The library covers the fetch-and-analyze pipeline: fingerprinting URLs
//! into safe file names, routing assets by extension, sniffing text,
//! scanning for sensitive tokens with entropy annotations, descending into
//! archives, extracting links from HTML, and deciding the live-or-archive
//! fetch sequence. I/O, the browser pool and the report server live outside
//! the library and consume these functions through plain values.

pub mod strutil;
pub mod text;
pub mod entropy;
pub mod urlparse;
pub mod fingerprint;
pub mod workspace;
pub mod patterns;
pub mod report;
pub mod links;
pub mod archive;
pub mod fetch;
pub mod pipeline;
pub mod vision;
pub mod screenshot;
pub mod serve;

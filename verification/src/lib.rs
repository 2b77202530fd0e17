//! Proxy configuration generator: parses scanner reports, builds proxy
//! configurations and their share links, and summarises test results.

pub mod decoding;
pub mod generator;
pub mod output;
pub mod scan;
pub mod tester;
pub mod text;
pub mod trusted;

pub use scan::ProxyInfo;

//! The core of a scanner that reads hostnames and reports which of their
//! URLs respond: the probe model, the rendering of URLs, the reading of
//! probe tokens and settings, the dispatcher that keeps the number of
//! requests in flight within a fixed bound, and the report of each outcome.
//!
//! The library sends nothing itself. It tells its caller what to do next,
//! and the caller reads the input, issues the requests and reports back.

pub mod config;
pub mod decimal;
pub mod dispatch;
pub mod outcome;
pub mod parse;
pub mod probe;
pub mod progress;
pub mod resolve;
pub mod url;

pub use crate::config::{configure, ConfigError, Settings};
pub use crate::dispatch::{expand_host, Action, Dispatcher};
pub use crate::outcome::{ProbeOutcome, Sink};
pub use crate::parse::{parse_probe, parse_probes};
pub use crate::probe::{Port, Probe, Protocol};
pub use crate::resolve::{default_probes, resolve_probes};
pub use crate::url::probe_to_url;

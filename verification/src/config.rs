//! The settings of a run, read from the text given on the command line.

use crate::decimal::{parse_unsigned, unsigned_literal};
use crate::probe::Probe;
use crate::resolve::{resolve_probes, resolved};
use vstd::prelude::*;

verus! {

/// The validated settings of a run.
#[derive(Debug, PartialEq, Eq)]
pub struct Settings {
    /// The probe set applied to every hostname.
    pub probes: Vec<Probe>,
    /// The most requests that may be in flight at once; at least one.
    pub concurrency: usize,
    /// The timeout of the connect phase of each request, in milliseconds.
    pub timeout_ms: u64,
}

/// Why settings were refused.
#[derive(Debug, PartialEq, Eq)]
pub enum ConfigError {
    /// The concurrency is not a positive integer.
    Concurrency,
    /// Some probe tokens do not parse; there is one message for each.
    Probes(Vec<String>),
    /// The timeout is not a number of milliseconds.
    Timeout,
}

/// The concurrency that `text` denotes: an unsigned decimal literal that is
/// at least one and fits the machine's word.
pub open spec fn concurrency_of(text: Seq<char>) -> Option<nat> {
    match unsigned_literal(text, usize::MAX as nat) {
        Some(n) => if n >= 1 {
            Some(n)
        } else {
            None
        },
        None => None,
    }
}

/// The timeout in milliseconds that `text` denotes: an unsigned decimal
/// literal of at most 64 bits.
pub open spec fn timeout_of(text: Seq<char>) -> Option<nat> {
    unsigned_literal(text, u64::MAX as nat)
}

/// Reads the number of concurrent requests. Zero is refused: with no slot
/// no request could ever be submitted.
pub fn parse_concurrency(text: &str) -> (limit: Option<usize>)
    ensures
        concurrency_of(text@) == match limit {
            Some(n) => Some(n as nat),
            None => None,
        },
{
    match parse_unsigned(text, usize::MAX as u64) {
        Some(n) => if n >= 1 {
            Some(n as usize)
        } else {
            None
        },
        None => None,
    }
}

/// Reads the timeout of the connect phase, in milliseconds.
pub fn parse_timeout(text: &str) -> (millis: Option<u64>)
    ensures
        timeout_of(text@) == match millis {
            Some(n) => Some(n as nat),
            None => None,
        },
{
    parse_unsigned(text, u64::MAX)
}

/// Validates the settings of a run before anything is sent.
///
/// The concurrency is checked first, then the probe tokens, then the
/// timeout; the first of them that is wrong is the error. All probe tokens
/// that do not parse are reported together.
pub fn configure(
    tokens: Vec<&str>,
    include_defaults: bool,
    timeout: &str,
    concurrency: &str,
) -> (outcome: Result<Settings, ConfigError>)
    ensures
        match outcome {
            Ok(settings) => {
                &&& concurrency_of(concurrency@) == Some(settings.concurrency as nat)
                &&& resolved(tokens.deep_view(), include_defaults) == Ok::<
                    Seq<Probe>,
                    Seq<Seq<char>>,
                >(settings.probes@)
                &&& timeout_of(timeout@) == Some(settings.timeout_ms as nat)
            },
            Err(ConfigError::Concurrency) => concurrency_of(concurrency@) is None,
            Err(ConfigError::Probes(messages)) => {
                &&& concurrency_of(concurrency@) is Some
                &&& resolved(tokens.deep_view(), include_defaults) == Err::<
                    Seq<Probe>,
                    Seq<Seq<char>>,
                >(messages.deep_view())
            },
            Err(ConfigError::Timeout) => {
                &&& concurrency_of(concurrency@) is Some
                &&& resolved(tokens.deep_view(), include_defaults) is Ok
                &&& timeout_of(timeout@) is None
            },
        },
{
    let limit = match parse_concurrency(concurrency) {
        Some(n) => n,
        None => {
            return Err(ConfigError::Concurrency);
        },
    };
    let probes = match resolve_probes(tokens, include_defaults) {
        Ok(probes) => probes,
        Err(messages) => {
            return Err(ConfigError::Probes(messages));
        },
    };
    let millis = match parse_timeout(timeout) {
        Some(n) => n,
        None => {
            return Err(ConfigError::Timeout);
        },
    };
    Ok(Settings { probes, concurrency: limit, timeout_ms: millis })
}

} // verus!

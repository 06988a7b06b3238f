//! The outcome of one request and how it is reported.

use vstd::prelude::*;

verus! {

/// Where a report goes.
#[derive(Debug, Copy, Clone, PartialEq, Eq, Structural)]
pub enum Sink {
    /// The output stream, for the URLs that responded.
    Output,
    /// The error stream, for the requests that failed.
    Errors,
}

/// What came of the request for one URL: the status of the response, or a
/// description of the failure. Every failure is alike here, be it a refused
/// connection, a timeout, or a name that does not resolve.
#[derive(Debug, PartialEq, Eq)]
pub struct ProbeOutcome {
    /// The URL that was requested.
    pub url: String,
    /// The status code of the response, or the description of the failure.
    pub result: Result<u16, String>,
}

impl ProbeOutcome {
    /// Whether a response came.
    pub open spec fn spec_responded(&self) -> bool {
        self.result is Ok
    }

    /// The stream on which the outcome is reported: the output for a
    /// response, the error stream for a failure.
    pub open spec fn sink(&self) -> Sink {
        if self.result is Ok {
            Sink::Output
        } else {
            Sink::Errors
        }
    }

    /// The line that reports the outcome: the URL alone for a response; for
    /// a failure the URL followed by the description.
    pub open spec fn line(&self) -> Seq<char> {
        match self.result {
            Ok(_) => self.url@,
            Err(description) => "Got an error: "@ + self.url@ + ": "@ + description@,
        }
    }

    /// Whether a response came.
    #[verifier::when_used_as_spec(spec_responded)]
    pub fn responded(&self) -> (yes: bool)
        ensures
            yes == self.spec_responded(),
    {
        self.result.is_ok()
    }

    /// The report of the outcome: the stream it goes to and the line to
    /// write there.
    pub fn report(&self) -> (report: (Sink, String))
        ensures
            report.0 == self.sink(),
            report.1@ == self.line(),
    {
        match &self.result {
            Ok(_) => (Sink::Output, self.url.clone()),
            Err(description) => {
                let mut line = String::from_str("Got an error: ");
                line.append(self.url.as_str());
                line.append(": ");
                line.append(description.as_str());
                (Sink::Errors, line)
            },
        }
    }
}

} // verus!

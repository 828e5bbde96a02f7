//! The error type shared by every fallible operation of the pipeline.

use vstd::prelude::*;

use crate::text::{push_str, string_from_chars};

verus! {

/// The unified error type for all `web2llm` operations.
///
/// Errors that come from the network, the file system or the browser carry
/// the text that the failing component reported.
#[derive(Debug)]
pub enum Web2llmError {
    /// A network or HTTP error: connection failures, timeouts, non-2xx
    /// status codes, or a failure of the headless browser.
    Http(String),
    /// Converting HTML to Markdown failed; the text says why.
    Markdown(String),
    /// A file system error during output persistence.
    Io(String),
    /// The page was fetched and parsed but no scoreable content was found.
    EmptyContent,
    /// The URL failed validation: malformed, a disallowed scheme, or a
    /// private address.
    InvalidUrl(String),
    /// The target URL is blocked by the site's `robots.txt`.
    Disallowed,
    /// The configuration is invalid, or an internal resource could not be
    /// obtained.
    Config(String),
}

/// Result type of the pipeline.
pub type Result<T> = std::result::Result<T, Web2llmError>;

/// The message an error is displayed with.
pub open spec fn error_message(e: Web2llmError) -> Seq<char> {
    match e {
        Web2llmError::Http(s) => "HTTP error: "@ + s@,
        Web2llmError::Markdown(s) => "Markdown error: "@ + s@,
        Web2llmError::Io(s) => "IO error: "@ + s@,
        Web2llmError::EmptyContent => "No content found"@,
        Web2llmError::InvalidUrl(s) => "Invalid URL: "@ + s@,
        Web2llmError::Disallowed => "Disallowed by robots.txt"@,
        Web2llmError::Config(s) => "Configuration error: "@ + s@,
    }
}

impl Web2llmError {
    /// The human-readable message of this error.
    pub fn message(&self) -> (r: String)
        ensures
            r@ == error_message(*self),
    {
        let mut out: Vec<char> = Vec::new();
        match self {
            Web2llmError::Http(s) => {
                push_str(&mut out, "HTTP error: ");
                push_str(&mut out, s.as_str());
            },
            Web2llmError::Markdown(s) => {
                push_str(&mut out, "Markdown error: ");
                push_str(&mut out, s.as_str());
            },
            Web2llmError::Io(s) => {
                push_str(&mut out, "IO error: ");
                push_str(&mut out, s.as_str());
            },
            Web2llmError::EmptyContent => {
                push_str(&mut out, "No content found");
            },
            Web2llmError::InvalidUrl(s) => {
                push_str(&mut out, "Invalid URL: ");
                push_str(&mut out, s.as_str());
            },
            Web2llmError::Disallowed => {
                push_str(&mut out, "Disallowed by robots.txt");
            },
            Web2llmError::Config(s) => {
                push_str(&mut out, "Configuration error: ");
                push_str(&mut out, s.as_str());
            },
        }
        string_from_chars(out.as_slice())
    }
}

} // verus!

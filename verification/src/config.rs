//! User-facing configuration of the pipeline and its validation.

use vstd::prelude::*;

use crate::error::Web2llmError;
use crate::fetch::FetchMode;
use crate::text::{push_str, string_from_chars};

verus! {

/// A span of time, as whole seconds and a number of nanoseconds below one
/// second.
#[derive(Debug, Clone, Copy, PartialEq, Eq, Structural)]
pub struct Timeout {
    pub secs: u64,
    pub nanos: u32,
}

impl Timeout {
    /// A span of whole seconds.
    pub fn from_secs(secs: u64) -> (r: Self)
        ensures
            r.secs == secs,
            r.nanos == 0,
    {
        Timeout { secs, nanos: 0 }
    }

    /// Whether the span is empty.
    pub fn is_zero(&self) -> (r: bool)
        ensures
            r == (self.secs == 0 && self.nanos == 0),
    {
        self.secs == 0 && self.nanos == 0
    }
}

/// The bit pattern of the `f32` value `0.1`, the default sensitivity.
pub const DEFAULT_SENSITIVITY_BITS: u32 = 0x3DCC_CCCDu32;

/// The bit pattern of the `f32` value `1.0`.
pub const ONE_BITS: u32 = 0x3F80_0000u32;

/// Whether an IEEE-754 single-precision value, given by its bit pattern,
/// lies outside `[0.0, 1.0]`: below `0.0`, above `1.0`, or NaN (which is no
/// number of that range); `-0.0` equals `0.0`.
pub open spec fn outside_unit_interval(bits: u32) -> bool {
    let negative = bits >= 0x8000_0000;
    let magnitude = if negative { (bits - 0x8000_0000) as u32 } else { bits };
    let is_nan = magnitude > 0x7F80_0000;
    is_nan || if negative {
        magnitude != 0
    } else {
        magnitude > ONE_BITS
    }
}

/// User-facing configuration for the pipeline: request identity, fetch
/// behaviour, extraction and chunking.
pub struct Web2llmConfig {
    /// The user-agent string sent with every HTTP request; also used for
    /// robots.txt checks.
    pub user_agent: String,
    /// Maximum time to wait for a response.
    pub timeout: Timeout,
    /// Reject private, loopback and link-local hosts during pre-flight.
    pub block_private_hosts: bool,
    /// How aggressively secondary content is filtered, as the bit pattern of
    /// an `f32` in `[0.0, 1.0]`: `0.1` keeps everything within 10x of the
    /// best branch, `0.5` only branches close to it.
    pub sensitivity_bits: u32,
    /// The target token budget of each chunk.
    pub max_tokens: usize,
    /// Fetch and respect robots.txt before downloading a page.
    pub robots_check: bool,
    /// Maximum number of requests per second.
    pub rate_limit: u32,
    /// Maximum number of concurrent requests.
    pub max_concurrency: usize,
    /// The fetching strategy.
    pub fetch_mode: FetchMode,
    /// Keep batch results in input order.
    pub ordered: bool,
}

/// The default user agent.
pub open spec fn default_user_agent() -> Seq<char> {
    "web2llm/0.4.0"@
}

/// The default token budget of a chunk.
pub const DEFAULT_MAX_TOKENS: usize = 1000usize;

/// The default configuration.
pub open spec fn is_default_config(c: Web2llmConfig) -> bool {
    &&& c.user_agent@ == default_user_agent()
    &&& c.timeout == Timeout { secs: 30, nanos: 0 }
    &&& c.block_private_hosts
    &&& c.sensitivity_bits == DEFAULT_SENSITIVITY_BITS
    &&& c.max_tokens == DEFAULT_MAX_TOKENS
    &&& c.robots_check
    &&& c.rate_limit == 5
    &&& c.max_concurrency == 10
    &&& c.fetch_mode == FetchMode::Auto
    &&& !c.ordered
}

impl Default for Web2llmConfig {
    fn default() -> (r: Self)
        ensures
            is_default_config(r),
    {
        let mut ua: Vec<char> = Vec::new();
        push_str(&mut ua, "web2llm/0.4.0");
        Web2llmConfig {
            user_agent: string_from_chars(ua.as_slice()),
            timeout: Timeout::from_secs(30),
            block_private_hosts: true,
            sensitivity_bits: DEFAULT_SENSITIVITY_BITS,
            max_tokens: DEFAULT_MAX_TOKENS,
            robots_check: true,
            rate_limit: 5,
            max_concurrency: 10,
            fetch_mode: FetchMode::Auto,
            ordered: false,
        }
    }
}

impl Web2llmConfig {
    /// Creates a configuration with the given values; the chunk budget and
    /// the ordering take their defaults.
    pub fn new(
        user_agent: String,
        timeout: Timeout,
        block_private_hosts: bool,
        sensitivity_bits: u32,
        robots_check: bool,
        rate_limit: u32,
        max_concurrency: usize,
        fetch_mode: FetchMode,
    ) -> (r: Self)
        ensures
            r.user_agent == user_agent,
            r.timeout == timeout,
            r.block_private_hosts == block_private_hosts,
            r.sensitivity_bits == sensitivity_bits,
            r.robots_check == robots_check,
            r.rate_limit == rate_limit,
            r.max_concurrency == max_concurrency,
            r.fetch_mode == fetch_mode,
            r.max_tokens == DEFAULT_MAX_TOKENS,
            !r.ordered,
    {
        Web2llmConfig {
            user_agent,
            timeout,
            block_private_hosts,
            sensitivity_bits,
            max_tokens: DEFAULT_MAX_TOKENS,
            robots_check,
            rate_limit,
            max_concurrency,
            fetch_mode,
            ordered: false,
        }
    }

    /// Builder-style method to set whether to check robots.txt; every other
    /// setting is kept.
    pub fn with_robots_check(self, check: bool) -> (r: Self)
        ensures
            r.robots_check == check,
            r.user_agent == self.user_agent,
            r.timeout == self.timeout,
            r.block_private_hosts == self.block_private_hosts,
            r.sensitivity_bits == self.sensitivity_bits,
            r.max_tokens == self.max_tokens,
            r.rate_limit == self.rate_limit,
            r.max_concurrency == self.max_concurrency,
            r.fetch_mode == self.fetch_mode,
            r.ordered == self.ordered,
    {
        let mut s = self;
        s.robots_check = check;
        s
    }
}

/// The reason a configuration is rejected, if it is; the checks apply in
/// order.
pub open spec fn config_rejection(c: Web2llmConfig) -> Option<Seq<char>> {
    if c.rate_limit == 0 {
        Some("rate_limit must be greater than zero"@)
    } else if c.max_concurrency == 0 {
        Some("max_concurrency must be greater than zero"@)
    } else if outside_unit_interval(c.sensitivity_bits) {
        Some("sensitivity must be between 0.0 and 1.0"@)
    } else {
        None
    }
}

/// Whether the sensitivity, given by its bit pattern, is below `0.0`,
/// above `1.0`, or NaN.
pub fn sensitivity_out_of_range(bits: u32) -> (r: bool)
    ensures
        r == outside_unit_interval(bits),
{
    let negative = bits >= 0x8000_0000;
    let magnitude = if negative { bits - 0x8000_0000 } else { bits };
    let is_nan = magnitude > 0x7F80_0000;
    is_nan || if negative {
        magnitude != 0
    } else {
        magnitude > ONE_BITS
    }
}

/// Checks that a configuration is usable before an engine is built from
/// it: a positive rate limit and concurrency, and a sensitivity in
/// `[0.0, 1.0]`.
pub fn validate_config(config: &Web2llmConfig) -> (r: Result<(), Web2llmError>)
    ensures
        match r {
            Ok(()) => config_rejection(*config) is None,
            Err(e) => e matches Web2llmError::Config(m) && config_rejection(*config) == Some(m@),
        },
{
    let mut msg: Vec<char> = Vec::new();
    if config.rate_limit == 0 {
        push_str(&mut msg, "rate_limit must be greater than zero");
        return Err(Web2llmError::Config(string_from_chars(msg.as_slice())));
    }
    if config.max_concurrency == 0 {
        push_str(&mut msg, "max_concurrency must be greater than zero");
        return Err(Web2llmError::Config(string_from_chars(msg.as_slice())));
    }
    if sensitivity_out_of_range(config.sensitivity_bits) {
        push_str(&mut msg, "sensitivity must be between 0.0 and 1.0");
        return Err(Web2llmError::Config(string_from_chars(msg.as_slice())));
    }
    Ok(())
}

} // verus!

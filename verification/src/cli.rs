//! The command-line front end's logic: output formats, the layering of
//! configuration (library defaults, then the TOML file, then command-line
//! flags), and the reports it prints.

use vstd::prelude::*;

use crate::config::{Timeout, Web2llmConfig, is_default_config};
use crate::crawl::CrawlConfig;
use crate::error::{Web2llmError, error_message};
use crate::fetch::FetchMode;
use crate::output::{PageResult, Timestamp, auto_file_name_of, joined_markdown, tokens_sum};
use crate::robots::{decimal, push_decimal};
use crate::text::{copy_string, push_str, string_from_chars};

verus! {

// ---------------------------------------------------------------------------
// Formats and modes
// ---------------------------------------------------------------------------

/// Fetch strategies exposed by the command line.
#[derive(Debug, Clone, Copy, PartialEq, Eq, Structural)]
pub enum FetchModeArg {
    /// Fall back to a browser if the page looks JavaScript-driven.
    Auto,
    /// A plain HTTP fetch without JavaScript execution.
    Static,
    /// Render the page through the browser.
    Dynamic,
}

/// Output formats for single-page fetches.
#[derive(Debug, Clone, Copy, PartialEq, Eq, Structural)]
pub enum FetchOutputFormat {
    /// Only the cleaned Markdown body.
    Markdown,
    /// Structured JSON with metadata and Markdown.
    Json,
}

/// Output formats for batch and crawl operations.
#[derive(Debug, Clone, Copy, PartialEq, Eq, Structural)]
pub enum BatchOutputFormat {
    /// One JSON object with the full report.
    Json,
    /// One JSON object per result line.
    Jsonl,
}

/// Output formats for raw URL extraction.
#[derive(Debug, Clone, Copy, PartialEq, Eq, Structural)]
pub enum UrlOutputFormat {
    /// One URL per line.
    Text,
    /// A JSON array of URLs.
    Json,
}

/// Fetch mode values accepted from TOML config files.
#[derive(Debug, Clone, Copy, PartialEq, Eq, Structural)]
pub enum FetchModeFileValue {
    Auto,
    Static,
    Dynamic,
}

pub open spec fn mode_of_arg(v: FetchModeArg) -> FetchMode {
    match v {
        FetchModeArg::Auto => FetchMode::Auto,
        FetchModeArg::Static => FetchMode::Static,
        FetchModeArg::Dynamic => FetchMode::Dynamic,
    }
}

pub open spec fn mode_of_file(v: FetchModeFileValue) -> FetchMode {
    match v {
        FetchModeFileValue::Auto => FetchMode::Auto,
        FetchModeFileValue::Static => FetchMode::Static,
        FetchModeFileValue::Dynamic => FetchMode::Dynamic,
    }
}

impl From<FetchModeArg> for FetchMode {
    fn from(value: FetchModeArg) -> (r: Self) {
        match value {
            FetchModeArg::Auto => FetchMode::Auto,
            FetchModeArg::Static => FetchMode::Static,
            FetchModeArg::Dynamic => FetchMode::Dynamic,
        }
    }
}

impl vstd::std_specs::convert::FromSpecImpl<FetchModeArg> for FetchMode {
    open spec fn obeys_from_spec() -> bool {
        true
    }

    open spec fn from_spec(value: FetchModeArg) -> FetchMode {
        mode_of_arg(value)
    }
}

impl From<FetchModeFileValue> for FetchMode {
    fn from(value: FetchModeFileValue) -> (r: Self) {
        match value {
            FetchModeFileValue::Auto => FetchMode::Auto,
            FetchModeFileValue::Static => FetchMode::Static,
            FetchModeFileValue::Dynamic => FetchMode::Dynamic,
        }
    }
}

impl vstd::std_specs::convert::FromSpecImpl<FetchModeFileValue> for FetchMode {
    open spec fn obeys_from_spec() -> bool {
        true
    }

    open spec fn from_spec(value: FetchModeFileValue) -> FetchMode {
        mode_of_file(value)
    }
}

// ---------------------------------------------------------------------------
// Configuration layering
// ---------------------------------------------------------------------------

/// TOML-backed overrides for [`Web2llmConfig`]; the sensitivity is the bit
/// pattern of an `f32`.
pub struct Web2llmSection {
    pub user_agent: Option<String>,
    pub timeout_secs: Option<u64>,
    pub block_private_hosts: Option<bool>,
    pub sensitivity_bits: Option<u32>,
    pub max_tokens: Option<usize>,
    pub robots_check: Option<bool>,
    pub rate_limit: Option<u32>,
    pub max_concurrency: Option<usize>,
    pub fetch_mode: Option<FetchModeFileValue>,
    pub ordered: Option<bool>,
}

impl Default for Web2llmSection {
    fn default() -> (r: Self)
        ensures
            r.user_agent is None && r.timeout_secs is None && r.block_private_hosts is None
                && r.sensitivity_bits is None && r.max_tokens is None && r.robots_check is None
                && r.rate_limit is None && r.max_concurrency is None && r.fetch_mode is None
                && r.ordered is None,
    {
        Web2llmSection {
            user_agent: None,
            timeout_secs: None,
            block_private_hosts: None,
            sensitivity_bits: None,
            max_tokens: None,
            robots_check: None,
            rate_limit: None,
            max_concurrency: None,
            fetch_mode: None,
            ordered: None,
        }
    }
}

/// TOML-backed overrides for [`CrawlConfig`].
#[derive(Debug, Clone, Copy, PartialEq, Eq, Structural)]
pub struct CrawlSection {
    pub max_depth: Option<usize>,
    pub preserve_domain: Option<bool>,
}

impl Default for CrawlSection {
    fn default() -> (r: Self)
        ensures
            r.max_depth is None && r.preserve_domain is None,
    {
        CrawlSection { max_depth: None, preserve_domain: None }
    }
}

/// The optional TOML configuration file: a `[web2llm]` section for engine
/// settings and a `[crawl]` section for crawl defaults.
pub struct FileConfig {
    pub web2llm: Web2llmSection,
    pub crawl: CrawlSection,
}

impl Default for FileConfig {
    fn default() -> (r: Self)
        ensures
            r.web2llm.user_agent is None && r.web2llm.timeout_secs is None
                && r.web2llm.block_private_hosts is None && r.web2llm.sensitivity_bits is None
                && r.web2llm.max_tokens is None && r.web2llm.robots_check is None
                && r.web2llm.rate_limit is None && r.web2llm.max_concurrency is None
                && r.web2llm.fetch_mode is None && r.web2llm.ordered is None
                && r.crawl.max_depth is None && r.crawl.preserve_domain is None,
    {
        FileConfig { web2llm: Web2llmSection::default(), crawl: CrawlSection::default() }
    }
}

/// Command-line overrides shared by every command; the sensitivity is the
/// bit pattern of an `f32`.
pub struct CommonOptions {
    pub user_agent: Option<String>,
    pub timeout_secs: Option<u64>,
    pub allow_private_hosts: bool,
    pub no_robots: bool,
    pub sensitivity_bits: Option<u32>,
    pub max_tokens: Option<usize>,
    pub rate_limit: Option<u32>,
    pub max_concurrency: Option<usize>,
    pub fetch_mode: Option<FetchModeArg>,
    pub ordered: bool,
}

impl Default for CommonOptions {
    fn default() -> (r: Self)
        ensures
            r.user_agent is None && r.timeout_secs is None && !r.allow_private_hosts
                && !r.no_robots && r.sensitivity_bits is None && r.max_tokens is None
                && r.rate_limit is None && r.max_concurrency is None && r.fetch_mode is None
                && !r.ordered,
    {
        CommonOptions {
            user_agent: None,
            timeout_secs: None,
            allow_private_hosts: false,
            no_robots: false,
            sensitivity_bits: None,
            max_tokens: None,
            rate_limit: None,
            max_concurrency: None,
            fetch_mode: None,
            ordered: false,
        }
    }
}

/// The first of two optional layers that is set, else the default.
pub open spec fn layered<T>(cli: Option<T>, file: Option<T>, default: T) -> T {
    match cli {
        Some(v) => v,
        None => match file {
            Some(v) => v,
            None => default,
        },
    }
}

pub open spec fn opt_string_view(o: Option<String>) -> Option<Seq<char>> {
    match o {
        Some(s) => Some(s@),
        None => None,
    }
}

pub open spec fn opt_timeout(o: Option<u64>) -> Option<Timeout> {
    match o {
        Some(s) => Some(Timeout { secs: s, nanos: 0 }),
        None => None,
    }
}

pub open spec fn opt_mode_arg(o: Option<FetchModeArg>) -> Option<FetchMode> {
    match o {
        Some(m) => Some(mode_of_arg(m)),
        None => None,
    }
}

pub open spec fn opt_mode_file(o: Option<FetchModeFileValue>) -> Option<FetchMode> {
    match o {
        Some(m) => Some(mode_of_file(m)),
        None => None,
    }
}

/// A flag that, when set, forces a value.
pub open spec fn flag(set: bool, v: bool) -> Option<bool> {
    if set {
        Some(v)
    } else {
        None
    }
}

/// The resolved engine configuration: every setting takes the command-line
/// value when one is given, else the file's value when the file sets it,
/// else the library default. The boolean flags only ever switch a setting
/// one way (`--allow-private-hosts` off blocking, `--no-robots` off the
/// robots check, `--ordered` on ordering).
pub open spec fn resolved(c: Web2llmConfig, file: FileConfig, options: CommonOptions) -> bool {
    let w = file.web2llm;
    &&& c.user_agent@ == layered(
        opt_string_view(options.user_agent),
        opt_string_view(w.user_agent),
        "web2llm/0.4.0"@,
    )
    &&& c.timeout == layered(
        opt_timeout(options.timeout_secs),
        opt_timeout(w.timeout_secs),
        Timeout { secs: 30, nanos: 0 },
    )
    &&& c.block_private_hosts == layered(
        flag(options.allow_private_hosts, false),
        w.block_private_hosts,
        true,
    )
    &&& c.sensitivity_bits == layered(
        options.sensitivity_bits,
        w.sensitivity_bits,
        crate::config::DEFAULT_SENSITIVITY_BITS,
    )
    &&& c.max_tokens == layered(options.max_tokens, w.max_tokens, crate::config::DEFAULT_MAX_TOKENS)
    &&& c.robots_check == layered(flag(options.no_robots, false), w.robots_check, true)
    &&& c.rate_limit == layered(options.rate_limit, w.rate_limit, 5)
    &&& c.max_concurrency == layered(options.max_concurrency, w.max_concurrency, 10)
    &&& c.fetch_mode == layered(
        opt_mode_arg(options.fetch_mode),
        opt_mode_file(w.fetch_mode),
        FetchMode::Auto,
    )
    &&& c.ordered == layered(flag(options.ordered, true), w.ordered, false)
}

/// The first layer that is set, else the default.
fn layer<T: Copy>(cli: Option<T>, file: Option<T>, default: T) -> (r: T)
    ensures
        r == layered(cli, file, default),
{
    match cli {
        Some(v) => v,
        None => match file {
            Some(v) => v,
            None => default,
        },
    }
}

/// The first string layer that is set, else the default, copied.
fn layer_string(cli: &Option<String>, file: &Option<String>, default: &String) -> (r: String)
    ensures
        r@ == layered(opt_string_view(*cli), opt_string_view(*file), default@),
{
    match cli {
        Some(v) => copy_string(v),
        None => match file {
            Some(v) => copy_string(v),
            None => copy_string(default),
        },
    }
}

/// A timeout of whole seconds, if one is given.
fn timeout_of(secs: Option<u64>) -> (r: Option<Timeout>)
    ensures
        r == opt_timeout(secs),
{
    match secs {
        Some(s) => Some(Timeout::from_secs(s)),
        None => None,
    }
}

/// The fetch mode named on the command line, if any.
fn mode_of_arg_opt(m: Option<FetchModeArg>) -> (r: Option<FetchMode>)
    ensures
        r == opt_mode_arg(m),
{
    match m {
        Some(v) => Some(FetchMode::from(v)),
        None => None,
    }
}

/// The fetch mode named in the file, if any.
fn mode_of_file_opt(m: Option<FetchModeFileValue>) -> (r: Option<FetchMode>)
    ensures
        r == opt_mode_file(m),
{
    match m {
        Some(v) => Some(FetchMode::from(v)),
        None => None,
    }
}

/// A flag that forces `v` when it is set.
fn flag_value(set: bool, v: bool) -> (r: Option<bool>)
    ensures
        r == flag(set, v),
{
    if set {
        Some(v)
    } else {
        None
    }
}

/// Resolves the final [`Web2llmConfig`] from defaults, the TOML file, and
/// command-line overrides (see [`resolved`]).
pub fn resolve_web2llm_config(file: &FileConfig, options: &CommonOptions) -> (r: Web2llmConfig)
    ensures
        resolved(r, *file, *options),
{
    let d = Web2llmConfig::default();
    let w = &file.web2llm;
    Web2llmConfig {
        user_agent: layer_string(&options.user_agent, &w.user_agent, &d.user_agent),
        timeout: layer(timeout_of(options.timeout_secs), timeout_of(w.timeout_secs), d.timeout),
        block_private_hosts: layer(
            flag_value(options.allow_private_hosts, false),
            w.block_private_hosts,
            d.block_private_hosts,
        ),
        sensitivity_bits: layer(options.sensitivity_bits, w.sensitivity_bits, d.sensitivity_bits),
        max_tokens: layer(options.max_tokens, w.max_tokens, d.max_tokens),
        robots_check: layer(flag_value(options.no_robots, false), w.robots_check, d.robots_check),
        rate_limit: layer(options.rate_limit, w.rate_limit, d.rate_limit),
        max_concurrency: layer(options.max_concurrency, w.max_concurrency, d.max_concurrency),
        fetch_mode: layer(
            mode_of_arg_opt(options.fetch_mode),
            mode_of_file_opt(w.fetch_mode),
            d.fetch_mode,
        ),
        ordered: layer(flag_value(options.ordered, true), w.ordered, d.ordered),
    }
}

/// Command-line values always win over the file's: whatever the file says,
/// a setting given on the command line is the resolved one.
pub proof fn lemma_cli_overrides_file(c: Web2llmConfig, file: FileConfig, options: CommonOptions)
    requires
        resolved(c, file, options),
    ensures
        options.user_agent matches Some(u) ==> c.user_agent@ == u@,
        options.timeout_secs matches Some(t) ==> c.timeout == (Timeout { secs: t, nanos: 0 }),
        options.allow_private_hosts ==> !c.block_private_hosts,
        options.no_robots ==> !c.robots_check,
        options.sensitivity_bits matches Some(b) ==> c.sensitivity_bits == b,
        options.max_tokens matches Some(m) ==> c.max_tokens == m,
        options.rate_limit matches Some(l) ==> c.rate_limit == l,
        options.max_concurrency matches Some(m) ==> c.max_concurrency == m,
        options.fetch_mode matches Some(m) ==> c.fetch_mode == mode_of_arg(m),
        options.ordered ==> c.ordered,
{
}

/// File values win over the defaults: a setting that no command-line flag
/// gives takes the file's value whenever the file sets it.
pub proof fn lemma_file_overrides_defaults(c: Web2llmConfig, file: FileConfig, options: CommonOptions)
    requires
        resolved(c, file, options),
    ensures
        options.user_agent is None ==> (file.web2llm.user_agent matches Some(u) ==> c.user_agent@ == u@),
        options.timeout_secs is None ==> (file.web2llm.timeout_secs matches Some(t) ==> c.timeout == (
        Timeout { secs: t, nanos: 0 })),
        !options.allow_private_hosts ==> (file.web2llm.block_private_hosts matches Some(b)
            ==> c.block_private_hosts == b),
        options.sensitivity_bits is None ==> (file.web2llm.sensitivity_bits matches Some(b)
            ==> c.sensitivity_bits == b),
        options.max_tokens is None ==> (file.web2llm.max_tokens matches Some(m) ==> c.max_tokens == m),
        !options.no_robots ==> (file.web2llm.robots_check matches Some(b) ==> c.robots_check == b),
        options.rate_limit is None ==> (file.web2llm.rate_limit matches Some(l) ==> c.rate_limit == l),
        options.max_concurrency is None ==> (file.web2llm.max_concurrency matches Some(m)
            ==> c.max_concurrency == m),
        options.fetch_mode is None ==> (file.web2llm.fetch_mode matches Some(m) ==> c.fetch_mode
            == mode_of_file(m)),
        !options.ordered ==> (file.web2llm.ordered matches Some(o) ==> c.ordered == o),
{
}

/// Crawl settings from the file win over the defaults, and the flags win
/// over the file.
pub proof fn lemma_crawl_layers(c: CrawlConfig, file: FileConfig, depth: Option<usize>, cross_origin: bool)
    requires
        crawl_resolved(c, file, depth, cross_origin),
    ensures
        depth matches Some(d) ==> c.max_depth == d,
        depth is None ==> (file.crawl.max_depth matches Some(d) ==> c.max_depth == d),
        depth is None && file.crawl.max_depth is None ==> c.max_depth == 0,
        cross_origin ==> !c.preserve_domain,
        !cross_origin ==> (file.crawl.preserve_domain matches Some(p) ==> c.preserve_domain == p),
        !cross_origin && file.crawl.preserve_domain is None ==> c.preserve_domain,
{
}

/// With no file and no flags, resolution gives the library defaults.
pub proof fn lemma_no_overrides_is_default(c: Web2llmConfig, file: FileConfig, options: CommonOptions)
    requires
        resolved(c, file, options),
        file.web2llm.user_agent is None && file.web2llm.timeout_secs is None
            && file.web2llm.block_private_hosts is None && file.web2llm.sensitivity_bits is None
            && file.web2llm.max_tokens is None && file.web2llm.robots_check is None
            && file.web2llm.rate_limit is None && file.web2llm.max_concurrency is None
            && file.web2llm.fetch_mode is None && file.web2llm.ordered is None,
        options.user_agent is None && options.timeout_secs is None && !options.allow_private_hosts
            && !options.no_robots && options.sensitivity_bits is None && options.max_tokens is None
            && options.rate_limit is None && options.max_concurrency is None
            && options.fetch_mode is None && !options.ordered,
    ensures
        is_default_config(c),
{
}

/// The resolved crawl configuration: the depth from the command line, else
/// the file, else `0`; the domain is preserved unless `--cross-origin` is
/// given, else as the file says, else preserved.
pub open spec fn crawl_resolved(c: CrawlConfig, file: FileConfig, depth: Option<usize>, cross_origin: bool) -> bool {
    &&& c.max_depth == layered(depth, file.crawl.max_depth, 0)
    &&& c.preserve_domain == layered(flag(cross_origin, false), file.crawl.preserve_domain, true)
}

/// Resolves the final [`CrawlConfig`] from defaults, the TOML file, and the
/// crawl command's `--depth` and `--cross-origin` flags.
pub fn resolve_crawl_config(file: &FileConfig, depth: Option<usize>, cross_origin: bool) -> (r: CrawlConfig)
    ensures
        crawl_resolved(r, *file, depth, cross_origin),
{
    let mut config = CrawlConfig::default();
    if let Some(value) = file.crawl.max_depth {
        config.max_depth = value;
    }
    if let Some(value) = file.crawl.preserve_domain {
        config.preserve_domain = value;
    }
    if let Some(value) = depth {
        config.max_depth = value;
    }
    if cross_origin {
        config.preserve_domain = false;
    }
    config
}

// ---------------------------------------------------------------------------
// Errors
// ---------------------------------------------------------------------------

/// The error type of command execution; errors of outside components carry
/// the text they reported.
#[derive(Debug)]
pub enum CliError {
    /// A library error.
    Web2llm(Web2llmError),
    /// A file system error.
    Io(String),
    /// A TOML parsing error.
    Toml(String),
    /// A JSON serialization error.
    Json(String),
    /// A configuration error.
    Config(String),
    /// A batch-style command finished with this many failed URLs.
    PartialFailure(usize),
}

/// The message a command error is displayed with.
pub open spec fn cli_error_message(e: CliError) -> Seq<char> {
    match e {
        CliError::Web2llm(inner) => error_message(inner),
        CliError::Io(s) => "I/O error: "@ + s@,
        CliError::Toml(s) => "TOML config error: "@ + s@,
        CliError::Json(s) => "JSON error: "@ + s@,
        CliError::Config(s) => "Configuration error: "@ + s@,
        CliError::PartialFailure(n) => decimal(n as nat) + " URLs failed during execution"@,
    }
}

impl CliError {
    /// The human-readable message of this error.
    pub fn message(&self) -> (r: String)
        ensures
            r@ == cli_error_message(*self),
    {
        let mut out: Vec<char> = Vec::new();
        match self {
            CliError::Web2llm(inner) => {
                return inner.message();
            },
            CliError::Io(s) => {
                push_str(&mut out, "I/O error: ");
                push_str(&mut out, s.as_str());
            },
            CliError::Toml(s) => {
                push_str(&mut out, "TOML config error: ");
                push_str(&mut out, s.as_str());
            },
            CliError::Json(s) => {
                push_str(&mut out, "JSON error: ");
                push_str(&mut out, s.as_str());
            },
            CliError::Config(s) => {
                push_str(&mut out, "Configuration error: ");
                push_str(&mut out, s.as_str());
            },
            CliError::PartialFailure(n) => {
                push_decimal(&mut out, *n as u64);
                push_str(&mut out, " URLs failed during execution");
            },
        }
        string_from_chars(out.as_slice())
    }
}

/// Validates the resolved configuration before the engine is built: the
/// timeout must not be zero.
pub fn validate_configs(web_config: &Web2llmConfig) -> (r: Result<(), CliError>)
    ensures
        match r {
            Ok(()) => !(web_config.timeout.secs == 0 && web_config.timeout.nanos == 0),
            Err(e) => {
                &&& web_config.timeout.secs == 0
                &&& web_config.timeout.nanos == 0
                &&& e matches CliError::Config(m)
                &&& m@ == "timeout_secs must be greater than zero"@
            },
        },
{
    if web_config.timeout.is_zero() {
        let mut msg: Vec<char> = Vec::new();
        push_str(&mut msg, "timeout_secs must be greater than zero");
        return Err(CliError::Config(string_from_chars(msg.as_slice())));
    }
    Ok(())
}

// ---------------------------------------------------------------------------
// Reports
// ---------------------------------------------------------------------------

/// What `chrono::DateTime::<Utc>::from_timestamp` followed by `to_rfc3339`
/// gives for a time; `None` when the time is out of chrono's range.
pub uninterp spec fn rfc3339_of(secs: i64, nanos: u32) -> Option<Seq<char>>;

/// Formats a time as RFC 3339 with chrono.
#[verifier::external_body]
fn rfc3339(t: Timestamp) -> (r: Option<String>)
    ensures
        opt_string_view(r) == rfc3339_of(t.secs, t.nanos),
{
    chrono::DateTime::<chrono::Utc>::from_timestamp(t.secs, t.nanos).map(|d| d.to_rfc3339())
}

/// A JSON-friendly representation of one successful page fetch.
pub struct PageDocument {
    pub url: String,
    pub title: String,
    pub markdown: String,
    pub total_tokens: usize,
    pub chunk_count: usize,
    /// The fetch time in RFC 3339 format (empty if it cannot be written).
    pub timestamp: String,
}

/// The document of a page.
pub open spec fn page_document_of(d: PageDocument, page: PageResult) -> bool {
    &&& d.url@ == page.url@
    &&& d.title@ == page.title@
    &&& d.markdown@ == joined_markdown(page.chunks@)
    &&& d.total_tokens == tokens_sum(page.chunks@)
    &&& d.chunk_count == page.chunks@.len()
    &&& d.timestamp@ == match rfc3339_of(page.timestamp.secs, page.timestamp.nanos) {
        Some(s) => s,
        None => Seq::empty(),
    }
}

impl PageDocument {
    /// The document of a page.
    pub fn from_page(page: &PageResult) -> (r: Self)
        requires
            tokens_sum(page.chunks@) <= usize::MAX,
        ensures
            page_document_of(r, *page),
    {
        let timestamp = match rfc3339(page.timestamp) {
            Some(s) => s,
            None => string_from_chars(Vec::new().as_slice()),
        };
        PageDocument {
            url: copy_string(&page.url),
            title: copy_string(&page.title),
            markdown: page.markdown(),
            total_tokens: page.total_tokens(),
            chunk_count: page.chunks.len(),
            timestamp,
        }
    }
}

/// A JSON-friendly representation of one batch or crawl item.
pub struct BatchItemDocument {
    pub url: String,
    pub ok: bool,
    pub page: Option<PageDocument>,
    pub error: Option<String>,
}

/// A JSON-friendly report for batch and crawl commands.
pub struct BatchReport {
    pub total: usize,
    pub succeeded: usize,
    pub failed: usize,
    pub results: Vec<BatchItemDocument>,
}

/// Number of failed results.
pub open spec fn failures(results: Seq<(String, Result<PageResult, Web2llmError>)>) -> nat
    decreases results.len(),
{
    if results.len() == 0 {
        0
    } else {
        failures(results.drop_last()) + if results.last().1 is Err {
            1nat
        } else {
            0nat
        }
    }
}

/// The document of one batch item.
pub open spec fn item_document_of(d: BatchItemDocument, item: (String, Result<PageResult, Web2llmError>)) -> bool {
    &&& d.url@ == item.0@
    &&& d.ok == item.1 is Ok
    &&& match item.1 {
        Ok(page) => {
            &&& d.error is None
            &&& d.page matches Some(p)
            &&& page_document_of(p, page)
        },
        Err(e) => {
            &&& d.page is None
            &&& d.error matches Some(m)
            &&& m@ == error_message(e)
        },
    }
}

/// The token count of a fetched page fits in a `usize`.
pub open spec fn result_tokens_fit(res: Result<PageResult, Web2llmError>) -> bool {
    match res {
        Ok(p) => tokens_sum(p.chunks@) <= usize::MAX,
        Err(_) => true,
    }
}

proof fn lemma_failures_bounded(results: Seq<(String, Result<PageResult, Web2llmError>)>)
    ensures
        failures(results) <= results.len(),
    decreases results.len(),
{
    if results.len() > 0 {
        lemma_failures_bounded(results.drop_last());
    }
}

/// Builds the report of a batch or crawl: one document per result, in
/// order, with the number of results, of successes and of failures.
pub fn build_batch_report(results: &Vec<(String, Result<PageResult, Web2llmError>)>) -> (r: BatchReport)
    requires
        forall|i: int|
            0 <= i < results@.len() ==> result_tokens_fit(#[trigger] results@[i].1),
    ensures
        r.total == results@.len(),
        r.failed == failures(results@),
        r.succeeded == r.total - r.failed,
        r.results@.len() == results@.len(),
        forall|i: int|
            0 <= i < results@.len() ==> item_document_of(#[trigger] r.results@[i], results@[i]),
{
    let mut docs: Vec<BatchItemDocument> = Vec::new();
    let mut failed: usize = 0;
    let mut i: usize = 0;
    while i < results.len()
        invariant
            i <= results@.len(),
            forall|j: int|
                0 <= j < results@.len() ==> result_tokens_fit(#[trigger] results@[j].1),
            docs@.len() == i,
            failed == failures(results@.subrange(0, i as int)),
            failed <= i,
            forall|j: int| 0 <= j < i ==> item_document_of(#[trigger] docs@[j], results@[j]),
        decreases results@.len() - i,
    {
        proof {
            assert(results@.subrange(0, i + 1).drop_last() == results@.subrange(0, i as int));
        }
        let (url, res) = &results[i];
        let doc = match res {
            Ok(page) => BatchItemDocument {
                url: copy_string(url),
                ok: true,
                page: Some(PageDocument::from_page(page)),
                error: None,
            },
            Err(e) => {
                failed = failed + 1;
                BatchItemDocument { url: copy_string(url), ok: false, page: None, error: Some(e.message()) }
            },
        };
        docs.push(doc);
        i = i + 1;
    }
    proof {
        assert(results@.subrange(0, results@.len() as int) == results@);
        lemma_failures_bounded(results@);
    }
    let total = docs.len();
    BatchReport { total, succeeded: total - failed, failed, results: docs }
}

/// Lines joined by newlines.
pub open spec fn joined_lines(v: Seq<String>) -> Seq<char>
    decreases v.len(),
{
    if v.len() == 0 {
        Seq::empty()
    } else if v.len() == 1 {
        v[0]@
    } else {
        joined_lines(v.drop_last()) + seq!['\n'] + v.last()@
    }
}

/// Renders extracted URLs as text: one URL per line.
pub fn render_urls_text(urls: &Vec<String>) -> (r: String)
    ensures
        r@ == joined_lines(urls@),
{
    let mut out: Vec<char> = Vec::new();
    let mut i: usize = 0;
    while i < urls.len()
        invariant
            i <= urls@.len(),
            out@ == joined_lines(urls@.subrange(0, i as int)),
        decreases urls@.len() - i,
    {
        proof {
            let p2 = urls@.subrange(0, i + 1);
            assert(p2.drop_last() == urls@.subrange(0, i as int));
            if i == 0 {
                assert(p2[0] == urls@[0]);
            }
        }
        if i > 0 {
            out.push('\n');
        }
        push_str(&mut out, urls[i].as_str());
        i = i + 1;
    }
    assert(urls@.subrange(0, urls@.len() as int) == urls@);
    string_from_chars(out.as_slice())
}

/// The files that saving the successful pages of a batch writes, in order:
/// for each page fetched, its file name and its Markdown.
pub open spec fn saved_files(results: Seq<(String, Result<PageResult, Web2llmError>)>) -> Seq<(Seq<char>, Seq<char>)>
    decreases results.len(),
{
    if results.len() == 0 {
        Seq::empty()
    } else {
        let rest = saved_files(results.drop_last());
        match results.last().1 {
            Ok(p) => rest.push((auto_file_name_of(p.url@), joined_markdown(p.chunks@))),
            Err(_) => rest,
        }
    }
}

pub open spec fn file_views(v: Seq<(String, String)>) -> Seq<(Seq<char>, Seq<char>)> {
    v.map_values(|f: (String, String)| (f.0@, f.1@))
}

/// Plans the saving of the successful pages of a batch-style result set
/// into an output directory: the file name (inside that directory) and the
/// contents of each file, in order. Failed results are skipped.
pub fn save_successful_pages(results: &Vec<(String, Result<PageResult, Web2llmError>)>) -> (r: Vec<(String, String)>)
    ensures
        file_views(r@) == saved_files(results@),
{
    let mut files: Vec<(String, String)> = Vec::new();
    let mut i: usize = 0;
    while i < results.len()
        invariant
            i <= results@.len(),
            file_views(files@) == saved_files(results@.subrange(0, i as int)),
        decreases results@.len() - i,
    {
        proof {
            assert(results@.subrange(0, i + 1).drop_last() == results@.subrange(0, i as int));
            assert(results@.subrange(0, i + 1).last() == results@[i as int]);
        }
        let ghost before = files@;
        if let Ok(page) = &results[i].1 {
            let name = page.auto_file_name();
            let body = page.markdown();
            files.push((name, body));
            proof {
                assert(file_views(files@) == file_views(before).push((name@, body@)));
            }
        }
        i = i + 1;
    }
    proof {
        assert(results@.subrange(0, results@.len() as int) == results@);
    }
    files
}

} // verus!

//! Fetch strategies and the single-page-application detector that decides
//! when a static fetch must be upgraded to a rendered one.

use vstd::prelude::*;

use crate::text::{contains, contains_str, str_chars};

verus! {

/// Defines the strategy used to fetch a page.
#[derive(Debug, Clone, Copy, PartialEq, Eq, Structural)]
pub enum FetchMode {
    /// Standard HTTP request (fast, no JavaScript).
    Static,
    /// Headless browser execution (slow, renders JavaScript).
    Dynamic,
    /// Detect whether a site is an SPA and switch to `Dynamic` if needed.
    Auto,
}

/// The name under which the fetch layer knows the strategy.
pub type FetchPath = FetchMode;

impl Default for FetchMode {
    fn default() -> (r: Self)
        ensures
            r == FetchMode::Static,
    {
        FetchMode::Static
    }
}

/// One fetch the pipeline performs for a page.
#[derive(Debug, Clone, Copy, PartialEq, Eq, Structural)]
pub enum FetchStep {
    /// A plain HTTP request.
    Static,
    /// A render through the headless browser.
    Dynamic,
}

/// The first fetch made for a page under `mode`: `Dynamic` renders straight
/// away, the other modes start with the fast static request.
pub fn first_fetch_step(mode: FetchMode) -> (r: FetchStep)
    ensures
        r == (if mode == FetchMode::Dynamic {
            FetchStep::Dynamic
        } else {
            FetchStep::Static
        }),
{
    match mode {
        FetchMode::Dynamic => FetchStep::Dynamic,
        _ => FetchStep::Static,
    }
}

/// Whether the page fetched statically under `mode` must be fetched again
/// through the browser: only in `Auto` mode, and only when the static HTML
/// looks like an SPA shell.
pub fn upgrade_to_dynamic(mode: FetchMode, static_html: &str) -> (r: bool)
    ensures
        r == (mode == FetchMode::Auto && spa_markers(
            str_to_lowercase(static_html@),
            static_html.len() as int,
        )),
{
    match mode {
        FetchMode::Auto => is_spa(static_html),
        _ => false,
    }
}

/// What `str::to_lowercase` returns for a string (full Unicode lowercase
/// mapping, context-sensitive for the final sigma).
pub uninterp spec fn str_to_lowercase(s: Seq<char>) -> Seq<char>;

/// Calls `str::to_lowercase`.
#[verifier::external_body]
fn to_lowercase(s: &str) -> (r: String)
    ensures
        r@ == str_to_lowercase(s@),
{
    s.to_lowercase()
}

/// The SPA heuristic over the lowercased HTML `low` of a page whose HTML is
/// `len` bytes long. Four groups of signals, in order: explicit "JavaScript
/// required" notices and framework markers; SSR state and AJAX-crawlability
/// markers; a framework mount point in a page under 10 KiB; a script bundle
/// name in a page under 15 KiB.
pub open spec fn spa_markers(low: Seq<char>, len: int) -> bool {
    let loud = (contains(low, "<noscript"@) && (contains(low, "javascript"@) || contains(
        low,
        "enable js"@,
    ))) || contains(low, "ng-version="@) || contains(low, "data-reactroot"@) || contains(
        low,
        "data-server-rendered"@,
    );
    let ssr = contains(low, "name=\"fragment\" content=\"!\""@) || contains(
        low,
        "window.__initial_state__"@,
    ) || contains(low, "window.__next_data__"@);
    let root = contains(low, "id=\"app\""@) || contains(low, "id=\"root\""@) || contains(
        low,
        "id=\"__next\""@,
    ) || contains(low, "id=\"__nuxt\""@) || contains(low, "id=\"___gatsby\""@) || contains(
        low,
        "id=\"app-root\""@,
    ) || contains(low, "<app-root"@) || contains(low, "id=\"ember-application\""@);
    let bundle = contains(low, ".chunk.js"@) || contains(low, "bundle.js"@) || contains(
        low,
        "vendor.js"@,
    ) || contains(low, "_next/static"@);
    loud || ssr || (root && len < 10240) || (len < 15360 && bundle)
}

/// Whether the lowercased HTML holds one of the SPA signals: a `<noscript>`
/// element together with a JavaScript notice, a framework, SSR or crawling
/// marker, a framework mount point, or a script bundle name.
pub open spec fn has_spa_signal(low: Seq<char>) -> bool {
    ||| contains(low, "<noscript"@) && (contains(low, "javascript"@) || contains(low, "enable js"@))
    ||| contains(low, "ng-version="@)
    ||| contains(low, "data-reactroot"@)
    ||| contains(low, "data-server-rendered"@)
    ||| contains(low, "name=\"fragment\" content=\"!\""@)
    ||| contains(low, "window.__initial_state__"@)
    ||| contains(low, "window.__next_data__"@)
    ||| contains(low, "id=\"app\""@)
    ||| contains(low, "id=\"root\""@)
    ||| contains(low, "id=\"__next\""@)
    ||| contains(low, "id=\"__nuxt\""@)
    ||| contains(low, "id=\"___gatsby\""@)
    ||| contains(low, "id=\"app-root\""@)
    ||| contains(low, "<app-root"@)
    ||| contains(low, "id=\"ember-application\""@)
    ||| contains(low, ".chunk.js"@)
    ||| contains(low, "bundle.js"@)
    ||| contains(low, "vendor.js"@)
    ||| contains(low, "_next/static"@)
}

/// A page is an SPA shell only if it carries an SPA signal: a mention of
/// JavaScript, or a `<noscript>` element, alone is not enough.
pub proof fn lemma_spa_needs_signal(low: Seq<char>, len: int)
    requires
        spa_markers(low, len),
    ensures
        has_spa_signal(low),
{
}

/// A page under 10 KiB is an SPA shell exactly when it carries an SPA
/// signal.
pub proof fn lemma_spa_small_page(low: Seq<char>, len: int)
    requires
        len < 10240,
    ensures
        spa_markers(low, len) <==> has_spa_signal(low),
{
}

/// Shrinking a page never turns an SPA shell into an ordinary page: the
/// size only ever rules signals out.
pub proof fn lemma_spa_smaller_page(low: Seq<char>, len: int, smaller: int)
    requires
        spa_markers(low, len),
        smaller <= len,
    ensures
        spa_markers(low, smaller),
{
}

/// Signals that do not depend on the size make a page an SPA shell
/// whatever its size.
pub proof fn lemma_spa_size_free_signals(low: Seq<char>, len: int)
    requires
        contains(low, "<noscript"@) && contains(low, "javascript"@) || contains(low, "ng-version="@)
            || contains(low, "window.__next_data__"@),
    ensures
        spa_markers(low, len),
{
}

/// Detects whether the given HTML shell belongs to a Single Page Application.
///
/// The HTML is lowercased and searched for the signals of [`spa_signals`];
/// the size thresholds apply to the byte length of the HTML as given.
pub fn is_spa(html: &str) -> (r: bool)
    ensures
        r == spa_markers(str_to_lowercase(html@), html.len() as int),
{
    let low = to_lowercase(html);
    spa_signals(low.as_str(), html.len())
}

/// The SPA heuristic applied to already-lowercased HTML `low`; before
/// lowercasing, the HTML was `len` bytes long.
pub fn spa_signals(low: &str, len: usize) -> (r: bool)
    ensures
        r == spa_markers(low@, len as int),
        r ==> has_spa_signal(low@),
{
    proof {
        if spa_markers(low@, len as int) {
            lemma_spa_needs_signal(low@, len as int);
        }
    }
    let c = str_chars(low);
    let s = c.as_slice();
    if (contains_str(s, "<noscript") && (contains_str(s, "javascript") || contains_str(
        s,
        "enable js",
    ))) || contains_str(s, "ng-version=") || contains_str(s, "data-reactroot")
        || contains_str(s, "data-server-rendered") {
        return true;
    }
    if contains_str(s, "name=\"fragment\" content=\"!\"") || contains_str(
        s,
        "window.__initial_state__",
    ) || contains_str(s, "window.__next_data__") {
        return true;
    }
    let has_root_container = contains_str(s, "id=\"app\"") || contains_str(s, "id=\"root\"")
        || contains_str(s, "id=\"__next\"") || contains_str(s, "id=\"__nuxt\"") || contains_str(
        s,
        "id=\"___gatsby\"",
    ) || contains_str(s, "id=\"app-root\"") || contains_str(s, "<app-root") || contains_str(
        s,
        "id=\"ember-application\"",
    );
    if has_root_container && len < 10240 {
        return true;
    }
    if len < 15360 && (contains_str(s, ".chunk.js") || contains_str(s, "bundle.js")
        || contains_str(s, "vendor.js") || contains_str(s, "_next/static")) {
        return true;
    }
    false
}

} // verus!

//! The extraction step of the pipeline: what a parsed page holds (its
//! address, title and links), the absolute links it points to, and the
//! assembly of its scored body into a [`PageResult`].

use vstd::prelude::*;

use crate::config::Web2llmConfig;
use crate::error::Web2llmError;
use crate::order::{sorted_unique, strictly_sorted, views};
use crate::output::PageResult;
use crate::scorer::{ScoredNode, chunk_roots, chunk_roots_spec, chunk_specs, tokens_at_most};
use crate::text::{str_chars, string_from_chars};

verus! {

/// What `url::Url::parse` of `base` followed by `Url::join` with `href`
/// serializes to; `None` when either step fails.
pub uninterp spec fn url_join(base: Seq<char>, href: Seq<char>) -> Option<Seq<char>>;

/// Resolves `href` against the absolute URL `base` with `url::Url::parse`
/// and `Url::join`.
#[verifier::external_body]
fn join_url(base: &str, href: &str) -> (r: Option<String>)
    ensures
        match r {
            Some(s) => url_join(base@, href@) == Some(s@),
            None => url_join(base@, href@) is None,
        },
{
    let b = url::Url::parse(base).ok()?;
    b.join(href).ok().map(|u| u.to_string())
}

/// The inner text of the first `<title>` element of an HTML text as `tl`
/// parses it; empty when there is none.
pub uninterp spec fn tl_title(html: Seq<char>) -> Seq<char>;

/// The `href` values of the `<a href>` elements of an HTML text as `tl`
/// parses it, in document order.
pub uninterp spec fn tl_link_targets(html: Seq<char>) -> Seq<Seq<char>>;

/// Parses `html` with `tl::parse` and returns the inner text of the first
/// `<title>` match of `query_selector`, or an empty text.
#[verifier::external_body]
fn html_title(html: &str) -> (r: String)
    requires
        html.len() <= u32::MAX,
    ensures
        r@ == tl_title(html@),
{
    let dom = tl::parse(html, tl::ParserOptions::default()).unwrap();
    let parser = dom.parser();
    let first = dom.query_selector("title").and_then(|mut iter| iter.next());
    first.and_then(|h| h.get(parser)).map(|n| n.inner_text(parser).into_owned()).unwrap_or_default()
}

/// Parses `html` with `tl::parse` and returns the `href` values of the
/// matches of `query_selector("a[href]")`, in order.
#[verifier::external_body]
fn html_link_targets(html: &str) -> (r: Vec<String>)
    requires
        html.len() <= u32::MAX,
    ensures
        r@.map_values(|s: String| s@) == tl_link_targets(html@),
{
    let dom = tl::parse(html, tl::ParserOptions::default()).unwrap();
    let parser = dom.parser();
    let handles = dom.query_selector("a[href]").map(|it| it.collect::<Vec<_>>()).unwrap_or_default();
    let tags = handles.iter().filter_map(|h| h.get(parser).and_then(|n| n.as_tag()));
    tags.filter_map(|t| t.attributes().get("href").flatten()).map(|b| b.as_utf8_str().into_owned()).collect()
}

/// The links of `hrefs` that resolve against `base`, resolved, in order.
pub open spec fn resolved_links(base: Seq<char>, hrefs: Seq<Seq<char>>) -> Seq<Seq<char>>
    decreases hrefs.len(),
{
    if hrefs.len() == 0 {
        Seq::empty()
    } else {
        let rest = resolved_links(base, hrefs.drop_last());
        match url_join(base, hrefs.last()) {
            Some(u) => rest.push(u),
            None => rest,
        }
    }
}

/// A parsed page: its final URL, its title, and the `href` values of its
/// `<a href>` elements in document order.
pub struct PageElements {
    pub url: String,
    pub title: String,
    pub hrefs: Vec<String>,
}

impl PageElements {
    /// Reads what extraction needs from the HTML of the page at `url`: its
    /// title and the targets of its links.
    pub fn parse(url: &str, html: &str) -> (r: Self)
        requires
            html.len() <= u32::MAX,
        ensures
            r.url@ == url@,
            r.title@ == tl_title(html@),
            views(r.hrefs@) == tl_link_targets(html@),
    {
        let title = html_title(html);
        let hrefs = html_link_targets(html);
        let u = str_chars(url);
        proof {
            assert(views(hrefs@) == hrefs@.map_values(|s: String| s@));
        }
        PageElements { url: string_from_chars(u.as_slice()), title, hrefs }
    }

    /// Every distinct absolute URL the page links to, sorted: each `href`
    /// is resolved against the page's URL, and those that do not resolve
    /// are dropped.
    pub fn get_urls(&self) -> (r: Vec<String>)
        ensures
            strictly_sorted(views(r@)),
            views(r@).to_set() == resolved_links(self.url@, views(self.hrefs@)).to_set(),
    {
        let mut found: Vec<String> = Vec::new();
        let mut i: usize = 0;
        while i < self.hrefs.len()
            invariant
                i <= self.hrefs@.len(),
                views(found@) == resolved_links(self.url@, views(self.hrefs@).subrange(0, i as int)),
            decreases self.hrefs@.len() - i,
        {
            proof {
                assert(views(self.hrefs@).subrange(0, i + 1).drop_last() == views(
                    self.hrefs@,
                ).subrange(0, i as int));
            }
            let ghost before = found@;
            if let Some(u) = join_url(self.url.as_str(), self.hrefs[i].as_str()) {
                found.push(u);
                proof {
                    assert(views(found@) == views(before).push(found@.last()@));
                }
            }
            i = i + 1;
        }
        proof {
            assert(views(self.hrefs@).subrange(0, self.hrefs@.len() as int) == views(self.hrefs@));
        }
        sorted_unique(found)
    }

    /// Turns the page into a result. `roots` is what scoring the page's body
    /// left standing, in document order, or `None` when the page has no
    /// body; the roots are chunked within the configured token budget.
    ///
    /// Fails with [`Web2llmError::EmptyContent`] exactly when there is no
    /// body or no chunk comes out; converting HTML to Markdown cannot fail.
    pub fn into_result(self, roots: Option<Vec<ScoredNode>>, config: &Web2llmConfig) -> (r: Result<PageResult, Web2llmError>)
        requires
            roots matches Some(rs) ==> forall|i: int|
                0 <= i < rs@.len() ==> tokens_at_most(#[trigger] rs@[i], (usize::MAX - config.max_tokens) as nat),
        ensures
            roots is None ==> r matches Err(Web2llmError::EmptyContent),
            roots matches Some(rs) && rs@.len() > 0 ==> r is Ok,
            roots matches Some(rs) ==> {
                let cs = chunk_roots_spec(rs@, config.max_tokens as nat);
                if cs.len() == 0 {
                    r matches Err(Web2llmError::EmptyContent)
                } else {
                    r matches Ok(p) && p.url@ == self.url@ && p.title@ == self.title@ && chunk_specs(p.chunks@) == cs
                }
            },
    {
        let rs = match roots {
            None => {
                return Err(Web2llmError::EmptyContent);
            },
            Some(rs) => rs,
        };
        proof {
            crate::scorer::lemma_chunk_roots_count(rs@, config.max_tokens as nat);
        }
        let chunks = chunk_roots(&rs, config.max_tokens)?;
        if chunks.len() == 0 {
            return Err(Web2llmError::EmptyContent);
        }
        Ok(PageResult::new(self.url.as_str(), self.title.as_str(), chunks))
    }
}

} // verus!

//! Recursive crawling: which discovered links are followed, and the
//! level-by-level discovery that precedes the final batch fetch.
//!
//! The crawler first discovers links level by level (the caller fetches the
//! links of every page of the current level), then performs one final batch
//! fetch over the discovered URL set.

use vstd::prelude::*;

use crate::preflight::{UrlParts, UrlView, opt_view, parse_url, url_parse};
use crate::text::{chars_eq, copy_string, str_chars, str_eq, string_from_chars};

verus! {

/// Configuration for recursive crawling.
#[derive(Debug, Clone, Copy, PartialEq, Eq, Structural)]
pub struct CrawlConfig {
    /// Maximum number of link-expansion steps from the seed URL; `0` means
    /// only the seed URL is fetched in the final batch.
    pub max_depth: usize,
    /// If `true`, only URLs on the same host (and port) as the seed URL are
    /// followed.
    pub preserve_domain: bool,
}

impl Default for CrawlConfig {
    fn default() -> (r: Self)
        ensures
            r.max_depth == 0,
            r.preserve_domain,
    {
        CrawlConfig { max_depth: 0, preserve_domain: true }
    }
}

/// A URL in the normalized form the crawler compares: parsed, without its
/// fragment.
pub open spec fn normalized(raw: Seq<char>) -> Option<Seq<char>> {
    match url_parse(raw) {
        Some(u) => Some(u.without_fragment),
        None => None,
    }
}

/// Parses `raw` and drops its fragment.
pub fn normalize_url(raw: &str) -> (r: Option<String>)
    ensures
        opt_view(r) == normalized(raw@),
{
    match parse_url(raw) {
        Some(u) => Some(u.without_fragment),
        None => None,
    }
}

/// Whether a link is followed: it must be `http` or `https`, and, when the
/// domain is preserved, have the seed's host and (effective) port.
pub open spec fn follows(u: UrlView, seed_host: Seq<char>, seed_port: Option<u16>, config: CrawlConfig) -> bool {
    (u.scheme == "http"@ || u.scheme == "https"@) && (!config.preserve_domain || (u.host == Some(
        seed_host,
    ) && u.known_port == seed_port))
}

/// Decides whether a discovered URL is followed.
pub fn should_follow(url: &UrlParts, seed_host: &str, seed_port: Option<u16>, config: &CrawlConfig) -> (r: bool)
    ensures
        r == follows(url@, seed_host@, seed_port, *config),
{
    let scheme_ok = str_eq(url.scheme.as_str(), "http") || str_eq(url.scheme.as_str(), "https");
    if !scheme_ok {
        return false;
    }
    if !config.preserve_domain {
        return true;
    }
    let same_host = match &url.host {
        Some(h) => str_eq(h.as_str(), seed_host),
        None => false,
    };
    same_host && url.known_port == seed_port
}

/// The views of a list of strings.
pub open spec fn url_views(v: Seq<String>) -> Seq<Seq<char>> {
    v.map_values(|s: String| s@)
}

/// The state of a crawl: the seed's host and port, every URL discovered so
/// far (the seed first), the URLs discovered at the last level, and the
/// number of expansion steps taken.
pub struct CrawlPlan {
    seed_host: Option<String>,
    seed_port: Option<u16>,
    config: CrawlConfig,
    discovered: Vec<String>,
    frontier: Vec<String>,
    depth: usize,
}

/// A link is admitted into the crawl: it normalizes, and the normalized URL
/// is followed from the seed.
pub open spec fn admitted(link: Seq<char>, seed_host: Option<Seq<char>>, seed_port: Option<u16>, config: CrawlConfig) -> bool {
    match url_parse(link) {
        Some(u) => match seed_host {
            Some(h) => follows(u, h, seed_port, config),
            None => false,
        },
        None => false,
    }
}

/// `d` is the normalized form of a link admitted into the crawl.
pub open spec fn from_admitted(d: Seq<char>, seed_host: Option<Seq<char>>, seed_port: Option<u16>, config: CrawlConfig) -> bool {
    exists|link: Seq<char>| admitted(link, seed_host, seed_port, config) && #[trigger] normalized(link)
        == Some(d)
}

/// Discovered URLs are distinct, and all but the first come from admitted
/// links.
pub open spec fn discovered_ok(d: Seq<Seq<char>>, seed_host: Option<Seq<char>>, seed_port: Option<u16>, config: CrawlConfig) -> bool {
    &&& d.len() >= 1
    &&& forall|i: int, j: int| 0 <= i < j < d.len() ==> d[i] != d[j]
    &&& forall|i: int| 1 <= i < d.len() ==> from_admitted(#[trigger] d[i], seed_host, seed_port, config)
}

/// Whether `s` is one of the entries of `v`.
pub open spec fn listed(v: Seq<Seq<char>>, s: Seq<char>) -> bool {
    exists|i: int| 0 <= i < v.len() && v[i] == s
}

/// The discovered URLs after considering one link: its normalized form is
/// added when the link is admitted and that form is not yet discovered.
pub open spec fn consider_link(
    d: Seq<Seq<char>>,
    link: Seq<char>,
    seed_host: Option<Seq<char>>,
    seed_port: Option<u16>,
    config: CrawlConfig,
) -> Seq<Seq<char>> {
    if admitted(link, seed_host, seed_port, config) && !listed(d, normalized(link)->Some_0) {
        d.push(normalized(link)->Some_0)
    } else {
        d
    }
}

/// The discovered URLs after considering the links of a page, in order.
pub open spec fn consider_links(
    d: Seq<Seq<char>>,
    links: Seq<Seq<char>>,
    seed_host: Option<Seq<char>>,
    seed_port: Option<u16>,
    config: CrawlConfig,
) -> Seq<Seq<char>>
    decreases links.len(),
{
    if links.len() == 0 {
        d
    } else {
        consider_link(
            consider_links(d, links.drop_last(), seed_host, seed_port, config),
            links.last(),
            seed_host,
            seed_port,
            config,
        )
    }
}

/// The discovered URLs after considering the links of several pages, page
/// by page.
pub open spec fn consider_pages(
    d: Seq<Seq<char>>,
    pages: Seq<Seq<Seq<char>>>,
    seed_host: Option<Seq<char>>,
    seed_port: Option<u16>,
    config: CrawlConfig,
) -> Seq<Seq<char>>
    decreases pages.len(),
{
    if pages.len() == 0 {
        d
    } else {
        consider_links(
            consider_pages(d, pages.drop_last(), seed_host, seed_port, config),
            pages.last(),
            seed_host,
            seed_port,
            config,
        )
    }
}

/// The views of the link lists of several pages.
pub open spec fn pages_views(found: Seq<Vec<String>>) -> Seq<Seq<Seq<char>>> {
    found.map_values(|v: Vec<String>| url_views(v@))
}

impl CrawlPlan {
    pub closed spec fn seed_host_view(&self) -> Option<Seq<char>> {
        opt_view(self.seed_host)
    }

    pub closed spec fn config_view(&self) -> CrawlConfig {
        self.config
    }

    pub closed spec fn seed_port_view(&self) -> Option<u16> {
        self.seed_port
    }

    /// Every URL discovered so far, the seed first.
    pub closed spec fn discovered_view(&self) -> Seq<Seq<char>> {
        url_views(self.discovered@)
    }

    /// The URLs discovered at the last level.
    pub closed spec fn frontier_view(&self) -> Seq<Seq<char>> {
        url_views(self.frontier@)
    }

    /// Number of expansion steps taken.
    pub closed spec fn depth_view(&self) -> nat {
        self.depth as nat
    }

    /// The crawl's invariant: discovered URLs are distinct; apart from the
    /// seed each was admitted from the seed; the frontier is a part of the
    /// discovered URLs; and no more than `max_depth` steps were taken.
    pub open spec fn well_formed(&self) -> bool {
        let d = self.discovered_view();
        &&& discovered_ok(d, self.seed_host_view(), self.seed_port_view(), self.config_view())
        &&& forall|i: int|
            0 <= i < self.frontier_view().len() ==> listed(d, #[trigger] self.frontier_view()[i])
        &&& self.depth_view() <= self.config_view().max_depth
    }

    /// Starts a crawl from `seed`. The seed is normalized when it parses
    /// (its host and port then bound the crawl); otherwise it is kept as
    /// given and nothing is expanded from it.
    pub fn new(seed: &str, config: CrawlConfig) -> (r: Self)
        ensures
            r.well_formed(),
            r.config_view() == config,
            r.depth_view() == 0,
            r.discovered_view() == seq![
                match url_parse(seed@) {
                    Some(u) => u.without_fragment,
                    None => seed@,
                },
            ],
            r.seed_host_view() == match url_parse(seed@) {
                Some(u) => u.host,
                None => None,
            },
            r.seed_port_view() == match url_parse(seed@) {
                Some(u) => u.known_port,
                None => None,
            },
            r.frontier_view() == if url_parse(seed@) is Some {
                r.discovered_view()
            } else {
                Seq::empty()
            },
    {
        match parse_url(seed) {
            Some(u) => {
                let s1 = copy_string(&u.without_fragment);
                let s2 = copy_string(&u.without_fragment);
                let plan = CrawlPlan {
                    seed_host: u.host,
                    seed_port: u.known_port,
                    config,
                    discovered: vec![s1],
                    frontier: vec![s2],
                    depth: 0,
                };
                proof {
                    assert(url_views(plan.frontier@) == url_views(plan.discovered@));
                    assert(listed(plan.discovered_view(), plan.frontier_view()[0]));
                }
                plan
            },
            None => {
                let cs = str_chars(seed);
                let plan = CrawlPlan {
                    seed_host: None,
                    seed_port: None,
                    config,
                    discovered: vec![string_from_chars(cs.as_slice())],
                    frontier: Vec::new(),
                    depth: 0,
                };
                proof {
                    assert(url_views(plan.frontier@) == Seq::<Seq<char>>::empty());
                }
                plan
            },
        }
    }

    /// The URLs whose links must be fetched next, or `None` when the crawl
    /// has expanded `max_depth` times or the last level found nothing new.
    pub fn next_level(&self) -> (r: Option<Vec<String>>)
        ensures
            match r {
                Some(v) => self.depth_view() < self.config_view().max_depth
                    && self.frontier_view().len() > 0 && url_views(v@) == self.frontier_view(),
                None => self.depth_view() >= self.config_view().max_depth
                    || self.frontier_view().len() == 0,
            },
    {
        if self.depth < self.config.max_depth && self.frontier.len() > 0 {
            Some(copy_strings(&self.frontier))
        } else {
            None
        }
    }

    /// Every URL discovered so far, the seed first: what the final batch
    /// fetch of the crawl fetches.
    pub fn discovered_urls(&self) -> (r: Vec<String>)
        ensures
            url_views(r@) == self.discovered_view(),
    {
        copy_strings(&self.discovered)
    }

    /// Takes in the links found on the pages of the current level (one list
    /// per page, empty for a page that failed) and makes the admitted links
    /// that were not discovered before the next level.
    pub fn absorb_level(&mut self, found: &Vec<Vec<String>>)
        requires
            old(self).well_formed(),
            old(self).depth_view() < old(self).config_view().max_depth,
        ensures
            final(self).well_formed(),
            final(self).depth_view() == old(self).depth_view() + 1,
            final(self).config_view() == old(self).config_view(),
            final(self).seed_host_view() == old(self).seed_host_view(),
            final(self).seed_port_view() == old(self).seed_port_view(),
            old(self).discovered_view().is_prefix_of(final(self).discovered_view()),
            final(self).discovered_view() == old(self).discovered_view() + final(self).frontier_view(),
            final(self).discovered_view() == consider_pages(
                old(self).discovered_view(),
                pages_views(found@),
                old(self).seed_host_view(),
                old(self).seed_port_view(),
                old(self).config_view(),
            ),
            forall|p: int, k: int|
                0 <= p < found@.len() && 0 <= k < found@[p]@.len() && admitted(
                    #[trigger] found@[p]@[k]@,
                    old(self).seed_host_view(),
                    old(self).seed_port_view(),
                    old(self).config_view(),
                ) ==> listed(final(self).discovered_view(), normalized(found@[p]@[k]@)->Some_0),
    {
        let ghost d0 = self.discovered_view();
        let mut next: Vec<String> = Vec::new();
        let mut p: usize = 0;
        proof {
            assert(pages_views(found@).subrange(0, 0) == Seq::<Seq<Seq<char>>>::empty());
            assert(url_views(next@) == Seq::<Seq<char>>::empty());
            assert(self.discovered_view() == d0 + url_views(next@));
        }
        while p < found.len()
            invariant
                p <= found@.len(),
                self.config == old(self).config,
                self.seed_host == old(self).seed_host,
                self.seed_port == old(self).seed_port,
                self.depth == old(self).depth,
                d0 == old(self).discovered_view(),
                self.discovered_view() == d0 + url_views(next@),
                self.discovered_view() == consider_pages(
                    d0,
                    pages_views(found@).subrange(0, p as int),
                    self.seed_host_view(),
                    self.seed_port_view(),
                    self.config_view(),
                ),
                discovered_ok(self.discovered_view(), self.seed_host_view(), self.seed_port_view(), self.config_view()),
                forall|q: int, k: int|
                    0 <= q < p && 0 <= k < found@[q]@.len() && admitted(
                        #[trigger] found@[q]@[k]@,
                        self.seed_host_view(),
                        self.seed_port_view(),
                        self.config_view(),
                    ) ==> listed(self.discovered_view(), normalized(found@[q]@[k]@)->Some_0),
            decreases found@.len() - p,
        {
            let links = &found[p];
            let mut k: usize = 0;
            proof {
                assert(url_views(links@).subrange(0, 0) == Seq::<Seq<char>>::empty());
            }
            while k < links.len()
                invariant
                    p < found@.len(),
                    links == found@[p as int],
                    k <= links@.len(),
                    self.config == old(self).config,
                    self.seed_host == old(self).seed_host,
                    self.seed_port == old(self).seed_port,
                    self.depth == old(self).depth,
                    d0 == old(self).discovered_view(),
                    self.discovered_view() == d0 + url_views(next@),
                    self.discovered_view() == consider_links(
                        consider_pages(
                            d0,
                            pages_views(found@).subrange(0, p as int),
                            self.seed_host_view(),
                            self.seed_port_view(),
                            self.config_view(),
                        ),
                        url_views(links@).subrange(0, k as int),
                        self.seed_host_view(),
                        self.seed_port_view(),
                        self.config_view(),
                    ),
                    discovered_ok(self.discovered_view(), self.seed_host_view(), self.seed_port_view(), self.config_view()),
                    forall|q: int, k2: int|
                        0 <= q < p && 0 <= k2 < found@[q]@.len() && admitted(
                            #[trigger] found@[q]@[k2]@,
                            self.seed_host_view(),
                            self.seed_port_view(),
                            self.config_view(),
                        ) ==> listed(self.discovered_view(), normalized(found@[q]@[k2]@)->Some_0),
                    forall|k2: int|
                        0 <= k2 < k && admitted(
                            #[trigger] links@[k2]@,
                            self.seed_host_view(),
                            self.seed_port_view(),
                            self.config_view(),
                        ) ==> listed(self.discovered_view(), normalized(links@[k2]@)->Some_0),
                decreases links@.len() - k,
            {
                let ghost dv = self.discovered_view();
                let ghost nv = url_views(next@);
                proof {
                    let lv = url_views(links@);
                    assert(lv.subrange(0, k + 1).drop_last() == lv.subrange(0, k as int));
                    assert(lv.subrange(0, k + 1).last() == links@[k as int]@);
                }
                self.consider(&links[k], &mut next);
                proof {
                    if self.discovered_view() != dv {
                        let s = choose|s: Seq<char>| self.discovered_view() == dv.push(s) && url_views(next@) == nv.push(s);
                        assert(self.discovered_view() == d0 + url_views(next@));
                    }
                }
                k = k + 1;
            }
            proof {
                let pv = pages_views(found@);
                assert(pv.subrange(0, p + 1).drop_last() == pv.subrange(0, p as int));
                assert(pv.subrange(0, p + 1).last() == url_views(links@));
                assert(url_views(links@).subrange(0, links@.len() as int) == url_views(links@));
            }
            p = p + 1;
        }
        proof {
            assert(pages_views(found@).subrange(0, found@.len() as int) == pages_views(found@));
        }
        self.frontier = next;
        self.depth = self.depth + 1;
        proof {
            assert forall|i: int| 0 <= i < self.frontier_view().len() implies listed(
                self.discovered_view(),
                #[trigger] self.frontier_view()[i],
            ) by {
                assert(self.discovered_view()[d0.len() + i] == self.frontier_view()[i]);
            }
        }
    }

    /// Adds one link to the discovered URLs and to `next` when it is
    /// admitted and new.
    fn consider(&mut self, link: &String, next: &mut Vec<String>)
        requires
            discovered_ok(old(self).discovered_view(), old(self).seed_host_view(), old(self).seed_port_view(), old(self).config_view()),
        ensures
            final(self).config == old(self).config,
            final(self).seed_host == old(self).seed_host,
            final(self).seed_port == old(self).seed_port,
            final(self).depth == old(self).depth,
            final(self).frontier == old(self).frontier,
            discovered_ok(final(self).discovered_view(), final(self).seed_host_view(), final(self).seed_port_view(), final(self).config_view()),
            (final(self).discovered_view() == old(self).discovered_view() && url_views(final(next)@) == url_views(old(next)@))
                || (exists|s: Seq<char>| final(self).discovered_view() == old(self).discovered_view().push(s)
                    && url_views(final(next)@) == url_views(old(next)@).push(s)),
            admitted(link@, old(self).seed_host_view(), old(self).seed_port_view(), old(self).config_view())
                ==> listed(final(self).discovered_view(), normalized(link@)->Some_0),
            forall|t: Seq<char>| listed(old(self).discovered_view(), t) ==> listed(final(self).discovered_view(), t),
            final(self).discovered_view() == consider_link(
                old(self).discovered_view(),
                link@,
                old(self).seed_host_view(),
                old(self).seed_port_view(),
                old(self).config_view(),
            ),
    {
        let u = match parse_url(link.as_str()) {
            Some(u) => u,
            None => {
                return;
            },
        };
        let follow = match &self.seed_host {
            Some(h) => should_follow(&u, h.as_str(), self.seed_port, &self.config),
            None => false,
        };
        if !follow {
            return;
        }
        let norm = u.without_fragment;
        let nc = str_chars(norm.as_str());
        let mut i: usize = 0;
        while i < self.discovered.len()
            invariant
                i <= self.discovered@.len(),
                *self == *old(self),
                discovered_ok(old(self).discovered_view(), old(self).seed_host_view(), old(self).seed_port_view(), old(self).config_view()),
                normalized(link@) == Some(norm@),
                nc@ == norm@,
                forall|j: int| 0 <= j < i ==> url_views(self.discovered@)[j] != norm@,
            decreases self.discovered@.len() - i,
        {
            let dc = str_chars(self.discovered[i].as_str());
            assert(url_views(self.discovered@)[i as int] == self.discovered@[i as int]@);
            if chars_eq(dc.as_slice(), nc.as_slice()) {
                proof {
                    assert(listed(self.discovered_view(), norm@));
                }
                return;
            }
            i = i + 1;
        }
        let ghost before = self.discovered_view();
        let ghost next_before = url_views(next@);
        let copy = copy_string(&norm);
        self.discovered.push(norm);
        next.push(copy);
        proof {
            assert(self.discovered_view() == before.push(norm@));
            assert(url_views(next@) == next_before.push(norm@));
            assert(listed(self.discovered_view(), norm@)) by {
                assert(self.discovered_view()[before.len() as int] == norm@);
            }
            assert(from_admitted(norm@, self.seed_host_view(), self.seed_port_view(), self.config_view())) by {
                assert(normalized(link@) == Some(norm@));
            }
            assert forall|t: Seq<char>| listed(before, t) implies listed(self.discovered_view(), t) by {
                let j = choose|j: int| 0 <= j < before.len() && before[j] == t;
                assert(self.discovered_view()[j] == t);
            }
        }
    }
}

/// A copy of a list of strings.
fn copy_strings(v: &Vec<String>) -> (r: Vec<String>)
    ensures
        url_views(r@) == url_views(v@),
{
    let mut out: Vec<String> = Vec::new();
    let mut i: usize = 0;
    while i < v.len()
        invariant
            i <= v@.len(),
            url_views(out@) == url_views(v@).subrange(0, i as int),
        decreases v@.len() - i,
    {
        let ghost before = url_views(out@);
        out.push(copy_string(&v[i]));
        assert(url_views(out@) == before.push(v@[i as int]@));
        i = i + 1;
        assert(url_views(out@) =~= url_views(v@).subrange(0, i as int));
    }
    assert(url_views(v@).subrange(0, v@.len() as int) == url_views(v@));
    out
}

} // verus!

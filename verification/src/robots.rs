//! robots.txt compliance: where a site's rules are fetched from, and what
//! they decide for each URL. Fetching the files is left to the caller; a
//! missing or empty file allows everything (fail-open).

use vstd::prelude::*;

use crate::error::Web2llmError;
use crate::preflight::{UrlParts, UrlView, opt_view, rejection, url_parse, validate};
use crate::text::{copy_string, push_str, str_chars, string_from_chars};

verus! {

// ---------------------------------------------------------------------------
// Where the rules live
// ---------------------------------------------------------------------------

/// The decimal digits of `n`.
pub open spec fn decimal(n: nat) -> Seq<char>
    decreases n,
{
    if n < 10 {
        seq![digit_char(n)]
    } else {
        decimal(n / 10) + seq![digit_char(n % 10)]
    }
}

pub open spec fn digit_char(d: nat) -> char {
    if d == 0 {
        '0'
    } else if d == 1 {
        '1'
    } else if d == 2 {
        '2'
    } else if d == 3 {
        '3'
    } else if d == 4 {
        '4'
    } else if d == 5 {
        '5'
    } else if d == 6 {
        '6'
    } else if d == 7 {
        '7'
    } else if d == 8 {
        '8'
    } else {
        '9'
    }
}

fn digit(d: u64) -> (c: char)
    requires
        d < 10,
    ensures
        c == digit_char(d as nat),
{
    if d == 0 {
        '0'
    } else if d == 1 {
        '1'
    } else if d == 2 {
        '2'
    } else if d == 3 {
        '3'
    } else if d == 4 {
        '4'
    } else if d == 5 {
        '5'
    } else if d == 6 {
        '6'
    } else if d == 7 {
        '7'
    } else if d == 8 {
        '8'
    } else {
        '9'
    }
}

/// Appends the decimal form of `n`.
pub fn push_decimal(out: &mut Vec<char>, n: u64)
    ensures
        final(out)@ == old(out)@ + decimal(n as nat),
    decreases n,
{
    if n >= 10 {
        push_decimal(out, n / 10);
    }
    out.push(digit(n % 10));
    proof {
        if n < 10 {
            assert(n % 10 == n);
        }
    }
}

/// The host part of a URL, empty when it has none.
pub open spec fn host_or_empty(u: UrlView) -> Seq<char> {
    match u.host {
        Some(h) => h,
        None => Seq::empty(),
    }
}

/// The key under which URLs share a robots.txt file: `scheme://host`.
pub open spec fn host_key(u: UrlView) -> Seq<char> {
    u.scheme + "://"@ + host_or_empty(u)
}

/// Computes the key `scheme://host` of a URL.
pub fn robots_host_key(url: &UrlParts) -> (r: String)
    ensures
        r@ == host_key(url@),
{
    let mut out: Vec<char> = Vec::new();
    push_str(&mut out, url.scheme.as_str());
    push_str(&mut out, "://");
    match &url.host {
        Some(h) => push_str(&mut out, h.as_str()),
        None => {},
    }
    string_from_chars(out.as_slice())
}

/// The address of the robots.txt file of a URL's site:
/// `scheme://host[:port]/robots.txt`, the port written only when the URL
/// gives one explicitly.
pub open spec fn robots_address(u: UrlView) -> Seq<char> {
    host_key(u) + match u.port {
        Some(p) => seq![':'] + decimal(p as nat),
        None => Seq::empty(),
    } + "/robots.txt"@
}

/// Builds the address of the robots.txt file for a URL.
pub fn robots_txt_url(url: &UrlParts) -> (r: String)
    ensures
        r@ == robots_address(url@),
{
    let mut out: Vec<char> = Vec::new();
    push_str(&mut out, url.scheme.as_str());
    push_str(&mut out, "://");
    match &url.host {
        Some(h) => push_str(&mut out, h.as_str()),
        None => {},
    }
    match url.port {
        Some(p) => {
            out.push(':');
            push_decimal(&mut out, p as u64);
        },
        None => {},
    }
    push_str(&mut out, "/robots.txt");
    string_from_chars(out.as_slice())
}

// ---------------------------------------------------------------------------
// What the rules decide
// ---------------------------------------------------------------------------

#[verifier::external_type_specification]
#[verifier::external_body]
pub struct ExRobot(texting_robots::Robot);

/// Whether `texting_robots::Robot::new` accepts a robots.txt text for a
/// user agent.
pub uninterp spec fn robots_accepts(agent: Seq<char>, txt: Seq<char>) -> bool;

/// What `Robot::allowed` answers for a URL, with the rules that
/// `Robot::new` built for a user agent from a robots.txt text.
pub uninterp spec fn robots_allows(agent: Seq<char>, txt: Seq<char>, url: Seq<char>) -> bool;

/// The text of the error `Robot::new` reports when it refuses a robots.txt
/// text for a user agent.
pub uninterp spec fn robots_parse_error(agent: Seq<char>, txt: Seq<char>) -> Seq<char>;

/// Calls `texting_robots::Robot::new` on the bytes of `txt`; on failure the
/// error's text is returned.
#[verifier::external_body]
fn robot_new(agent: &str, txt: &str) -> (r: std::result::Result<texting_robots::Robot, String>)
    ensures
        r is Ok == robots_accepts(agent@, txt@),
        r matches Err(e) ==> e@ == robots_parse_error(agent@, txt@),
{
    texting_robots::Robot::new(agent, txt.as_bytes()).map_err(|e| e.to_string())
}

/// The rules of one robots.txt file for one user agent.
pub struct RobotsRules {
    robot: texting_robots::Robot,
    agent: Ghost<Seq<char>>,
    txt: Ghost<Seq<char>>,
}

impl RobotsRules {
    /// The user agent the rules were built for.
    pub closed spec fn agent(&self) -> Seq<char> {
        self.agent@
    }

    /// The robots.txt text the rules were built from.
    pub closed spec fn txt(&self) -> Seq<char> {
        self.txt@
    }

    /// Builds the rules of `txt` for `agent`, or returns the parser's error
    /// text.
    pub fn parse(agent: &str, txt: &str) -> (r: std::result::Result<Self, String>)
        ensures
            r is Ok == robots_accepts(agent@, txt@),
            r matches Ok(rules) ==> rules.agent() == agent@ && rules.txt() == txt@,
            r matches Err(e) ==> e@ == robots_parse_error(agent@, txt@),
    {
        match robot_new(agent, txt) {
            Ok(robot) => Ok(RobotsRules { robot, agent: Ghost(agent@), txt: Ghost(txt@) }),
            Err(e) => Err(e),
        }
    }

    /// Whether the rules allow fetching `url`.
    pub fn allows(&self, url: &str) -> (r: bool)
        ensures
            r == robots_allows(self.agent(), self.txt(), url@),
    {
        robot_allowed(self, url)
    }
}

/// Calls `Robot::allowed` on rules built by [`RobotsRules::parse`].
#[verifier::external_body]
fn robot_allowed(rules: &RobotsRules, url: &str) -> (r: bool)
    ensures
        r == robots_allows(rules.agent(), rules.txt(), url@),
{
    rules.robot.allowed(url)
}

/// Checks a single URL against the robots.txt text of its site.
pub fn check_single(url: &UrlParts, user_agent: &str, txt: &str) -> (r: Result<(), Web2llmError>)
    ensures
        match r {
            Ok(()) => txt@.len() == 0 || (robots_accepts(user_agent@, txt@) && robots_allows(
                user_agent@,
                txt@,
                url.href@,
            )),
            Err(Web2llmError::Disallowed) => txt@.len() > 0 && robots_accepts(user_agent@, txt@)
                && !robots_allows(user_agent@, txt@, url.href@),
            Err(Web2llmError::Config(m)) => txt@.len() > 0 && !robots_accepts(user_agent@, txt@)
                && m@ == "Failed to parse robots.txt: "@ + robots_parse_error(user_agent@, txt@),
            Err(_) => false,
        },
{
    let t = str_chars(txt);
    if t.len() == 0 {
        return Ok(());
    }
    match RobotsRules::parse(user_agent, txt) {
        Err(e) => {
            let mut msg: Vec<char> = Vec::new();
            push_str(&mut msg, "Failed to parse robots.txt: ");
            push_str(&mut msg, e.as_str());
            Err(Web2llmError::Config(string_from_chars(msg.as_slice())))
        },
        Ok(rules) => {
            if rules.allows(url.href.as_str()) {
                Ok(())
            } else {
                Err(Web2llmError::Disallowed)
            }
        },
    }
}

// ---------------------------------------------------------------------------
// Batches
// ---------------------------------------------------------------------------

/// The URLs of a batch that share one robots.txt file.
pub struct RobotsGroup {
    /// The shared key `scheme://host`.
    pub host_key: String,
    /// Where the file is fetched from: the key followed by `/robots.txt`.
    pub robots_url: String,
    /// The positions in the batch of the URLs of this group.
    pub indices: Vec<usize>,
}

/// The groups partition the positions of `urls` by host key: keys are
/// distinct, every group lists at least one position, every position is in
/// the group of its key, and no group lists a position of another key. So
/// there is exactly one group per site of the batch.
pub open spec fn groups_partition(urls: Seq<UrlView>, groups: Seq<RobotsGroup>) -> bool {
    &&& forall|g: int| 0 <= g < groups.len() ==> (#[trigger] groups[g]).indices@.len() > 0
    &&& forall|g: int, h: int|
        0 <= g < h < groups.len() ==> (#[trigger] groups[g]).host_key@ != (#[trigger] groups[h]).host_key@
    &&& forall|g: int|
        0 <= g < groups.len() ==> (#[trigger] groups[g]).robots_url@ == groups[g].host_key@
            + "/robots.txt"@
    &&& forall|g: int, k: int|
        0 <= g < groups.len() && 0 <= k < groups[g].indices@.len() ==> {
            let i = (#[trigger] groups[g].indices@[k]) as int;
            0 <= i < urls.len() && host_key(urls[i]) == groups[g].host_key@
        }
    &&& forall|i: int| 0 <= i < urls.len() ==> #[trigger] listed_in_groups(groups, i)
}

/// Position `i` is listed by some group.
pub open spec fn listed_in_groups(groups: Seq<RobotsGroup>, i: int) -> bool {
    exists|g: int, k: int|
        0 <= g < groups.len() && 0 <= k < groups[g].indices@.len() && #[trigger] groups[g].indices@[k]
            == i
}

pub open spec fn batch_views(urls: Seq<(String, UrlParts)>) -> Seq<UrlView> {
    urls.map_values(|p: (String, UrlParts)| p.1@)
}

/// Groups the URLs of a batch by site, so that each robots.txt file is
/// fetched once.
pub fn plan_robots_batch(urls: &Vec<(String, UrlParts)>) -> (r: Vec<RobotsGroup>)
    ensures
        groups_partition(batch_views(urls@), r@),
{
    let mut groups: Vec<RobotsGroup> = Vec::new();
    let mut i: usize = 0;
    while i < urls.len()
        invariant
            i <= urls@.len(),
            forall|g: int, h: int|
                0 <= g < h < groups@.len() ==> (#[trigger] groups@[g]).host_key@
                    != (#[trigger] groups@[h]).host_key@,
            forall|g: int|
                0 <= g < groups@.len() ==> (#[trigger] groups@[g]).robots_url@
                    == groups@[g].host_key@ + "/robots.txt"@,
            forall|g: int| 0 <= g < groups@.len() ==> (#[trigger] groups@[g]).indices@.len() > 0,
            forall|g: int, k: int|
                0 <= g < groups@.len() && 0 <= k < groups@[g].indices@.len() ==> {
                    let j = (#[trigger] groups@[g].indices@[k]) as int;
                    0 <= j < i && host_key(batch_views(urls@)[j]) == groups@[g].host_key@
                },
            forall|j: int| 0 <= j < i ==> #[trigger] listed_in_groups(groups@, j),
        decreases urls@.len() - i,
    {
        let key = robots_host_key(&urls[i].1);
        assert(batch_views(urls@)[i as int] == urls@[i as int].1@);
        let kc = str_chars(key.as_str());
        // look for the group of this key
        let mut g: usize = 0;
        let mut found = false;
        while g < groups.len() && !found
            invariant
                g <= groups@.len(),
                kc@ == key@,
                found ==> g < groups@.len() && groups@[g as int].host_key@ == key@,
                !found ==> forall|h: int| 0 <= h < g ==> (#[trigger] groups@[h]).host_key@ != key@,
            decreases groups@.len() - g + (if found { 0int } else { 1int }),
        {
            let hc = str_chars(groups[g].host_key.as_str());
            if crate::text::chars_eq(hc.as_slice(), kc.as_slice()) {
                found = true;
            } else {
                g = g + 1;
            }
        }
        let ghost old_groups = groups@;
        if found {
            let mut grp = groups.remove(g);
            let ghost old_idx = grp.indices@;
            grp.indices.push(i);
            groups.insert(g, grp);
            proof {
                assert forall|a: int| 0 <= a < groups@.len() && a != g implies #[trigger] groups@[a]
                    == old_groups[a] by {
                }
                assert(groups@[g as int].indices@ == old_idx.push(i));
                assert(groups@[g as int].indices@[old_idx.len() as int] == i);
                assert forall|j: int| 0 <= j < i + 1 implies #[trigger] listed_in_groups(groups@, j) by {
                    if j < i {
                        assert(listed_in_groups(old_groups, j));
                        let (g1, k1) = choose|g1: int, k1: int|
                            0 <= g1 < old_groups.len() && 0 <= k1 < old_groups[g1].indices@.len()
                                && #[trigger] old_groups[g1].indices@[k1] == j;
                        assert(groups@[g1].indices@[k1] == j);
                    } else {
                        assert(groups@[g as int].indices@[old_idx.len() as int] == j);
                    }
                }
            }
        } else {
            let mut url_chars: Vec<char> = Vec::new();
            push_str(&mut url_chars, key.as_str());
            push_str(&mut url_chars, "/robots.txt");
            let robots_url = string_from_chars(url_chars.as_slice());
            let mut indices: Vec<usize> = Vec::new();
            indices.push(i);
            groups.push(RobotsGroup { host_key: key, robots_url, indices });
            proof {
                assert forall|a: int| 0 <= a < old_groups.len() implies #[trigger] groups@[a]
                    == old_groups[a] by {
                }
                let last = old_groups.len() as int;
                assert(groups@[last].indices@[0] == i);
                assert forall|j: int| 0 <= j < i + 1 implies #[trigger] listed_in_groups(groups@, j) by {
                    if j < i {
                        assert(listed_in_groups(old_groups, j));
                        let (g1, k1) = choose|g1: int, k1: int|
                            0 <= g1 < old_groups.len() && 0 <= k1 < old_groups[g1].indices@.len()
                                && #[trigger] old_groups[g1].indices@[k1] == j;
                        assert(groups@[g1].indices@[k1] == j);
                    } else {
                        assert(groups@[last].indices@[0] == j);
                    }
                }
            }
        }
        i = i + 1;
    }
    groups
}

/// Whether the URL at position `i` of a batch is forbidden: its group's
/// robots.txt text is non-empty, parses, and disallows the URL.
pub open spec fn batch_forbidden(
    urls: Seq<UrlView>,
    groups: Seq<RobotsGroup>,
    texts: Seq<String>,
    agent: Seq<char>,
    i: int,
) -> bool {
    exists|g: int, k: int|
        0 <= g < groups.len() && 0 <= k < groups[g].indices@.len() && #[trigger] groups[g].indices@[k]
            == i && texts[g]@.len() > 0 && robots_accepts(agent, texts[g]@) && !robots_allows(
            agent,
            texts[g]@,
            urls[i].href,
        )
}

/// A batch judges each URL as a single check would: with the robots.txt
/// text of the URL's own site, the URL is forbidden exactly when that text
/// is non-empty, parses, and disallows it.
pub proof fn lemma_batch_verdict_is_site_verdict(
    urls: Seq<UrlView>,
    groups: Seq<RobotsGroup>,
    texts: Seq<String>,
    agent: Seq<char>,
    i: int,
    g: int,
)
    requires
        groups_partition(urls, groups),
        texts.len() == groups.len(),
        0 <= i < urls.len(),
        0 <= g < groups.len(),
        groups[g].host_key@ == host_key(urls[i]),
    ensures
        batch_forbidden(urls, groups, texts, agent, i) <==> (texts[g]@.len() > 0 && robots_accepts(
            agent,
            texts[g]@,
        ) && !robots_allows(agent, texts[g]@, urls[i].href)),
{
    assert(listed_in_groups(groups, i));
    let (g1, k1) = choose|g1: int, k1: int|
        0 <= g1 < groups.len() && 0 <= k1 < groups[g1].indices@.len() && #[trigger] groups[g1].indices@[k1]
            == i;
    assert(host_key(urls[groups[g1].indices@[k1] as int]) == groups[g1].host_key@);
    if g1 != g {
        if g1 < g {
            assert(groups[g1].host_key@ != groups[g].host_key@);
        } else {
            assert(groups[g].host_key@ != groups[g1].host_key@);
        }
    }
    if batch_forbidden(urls, groups, texts, agent, i) {
        let (g2, k2) = choose|g2: int, k2: int|
            0 <= g2 < groups.len() && 0 <= k2 < groups[g2].indices@.len() && #[trigger] groups[g2].indices@[k2]
                == i && texts[g2]@.len() > 0 && robots_accepts(agent, texts[g2]@) && !robots_allows(
                agent,
                texts[g2]@,
                urls[i].href,
            );
        assert(host_key(urls[groups[g2].indices@[k2] as int]) == groups[g2].host_key@);
        if g2 != g {
            if g2 < g {
                assert(groups[g2].host_key@ != groups[g].host_key@);
            } else {
                assert(groups[g].host_key@ != groups[g2].host_key@);
            }
        }
    }
}

/// Every URL of a batch belongs to the group of its site, which is the only
/// group with that site's key; and every group is the site of some URL. So
/// a batch fetches one robots.txt file per distinct site, and none for an
/// empty batch.
pub proof fn lemma_batch_site_group(urls: Seq<UrlView>, groups: Seq<RobotsGroup>, i: int) -> (g: int)
    requires
        groups_partition(urls, groups),
        0 <= i < urls.len(),
    ensures
        0 <= g < groups.len(),
        groups[g].host_key@ == host_key(urls[i]),
        forall|h: int| 0 <= h < groups.len() && groups[h].host_key@ == host_key(urls[i]) ==> h == g,
{
    let g = lemma_batch_site_group_witness(urls, groups, i);
    assert forall|h: int| 0 <= h < groups.len() && #[trigger] groups[h].host_key@ == host_key(urls[i]) implies h
        == g by {
        if h < g {
            assert(groups[h].host_key@ != groups[g].host_key@);
        } else if h > g {
            assert(groups[g].host_key@ != groups[h].host_key@);
        }
    }
    g
}

/// Every group of a batch holds a URL of its own site.
pub proof fn lemma_batch_group_site(urls: Seq<UrlView>, groups: Seq<RobotsGroup>, g: int) -> (i: int)
    requires
        groups_partition(urls, groups),
        0 <= g < groups.len(),
    ensures
        0 <= i < urls.len(),
        host_key(urls[i]) == groups[g].host_key@,
{
    assert(groups[g].indices@.len() > 0);
    let i = groups[g].indices@[0] as int;
    i
}

proof fn lemma_batch_site_group_witness(urls: Seq<UrlView>, groups: Seq<RobotsGroup>, i: int) -> (g: int)
    requires
        groups_partition(urls, groups),
        0 <= i < urls.len(),
    ensures
        0 <= g < groups.len(),
        groups[g].host_key@ == host_key(urls[i]),
{
    assert(listed_in_groups(groups, i));
    let (g1, k1) = choose|g1: int, k1: int|
        0 <= g1 < groups.len() && 0 <= k1 < groups[g1].indices@.len() && #[trigger] groups[g1].indices@[k1]
            == i;
    assert(host_key(urls[groups[g1].indices@[k1] as int]) == groups[g1].host_key@);
    g1
}

/// A copy of the parts of a URL.
pub fn copy_parts(u: &UrlParts) -> (r: UrlParts)
    ensures
        r@ == u@,
{
    UrlParts {
        href: copy_string(&u.href),
        scheme: copy_string(&u.scheme),
        host: match &u.host {
            Some(h) => Some(copy_string(h)),
            None => None,
        },
        port: u.port,
        known_port: u.known_port,
        host_ipv4: u.host_ipv4,
        host_ipv6: u.host_ipv6,
        without_fragment: copy_string(&u.without_fragment),
    }
}

/// Applies the fetched robots.txt texts (one per group, empty when the file
/// could not be fetched) to a batch: every URL stays accepted unless the
/// rules of its site forbid it.
pub fn apply_robots_batch(
    urls: &Vec<(String, UrlParts)>,
    groups: &Vec<RobotsGroup>,
    texts: &Vec<String>,
    user_agent: &str,
) -> (r: Vec<(String, Result<UrlParts, Web2llmError>)>)
    requires
        groups_partition(batch_views(urls@), groups@),
        texts@.len() == groups@.len(),
    ensures
        r@.len() == urls@.len(),
        forall|i: int|
            0 <= i < urls@.len() ==> {
                &&& (#[trigger] r@[i]).0@ == urls@[i].0@
                &&& if batch_forbidden(batch_views(urls@), groups@, texts@, user_agent@, i) {
                    r@[i].1 == Err::<UrlParts, Web2llmError>(Web2llmError::Disallowed)
                } else {
                    r@[i].1 matches Ok(u) && u@ == urls@[i].1@
                }
            },
{
    let n = urls.len();
    let mut forbidden: Vec<bool> = Vec::new();
    let mut i: usize = 0;
    while i < n
        invariant
            n == urls@.len(),
            i <= n,
            forbidden@.len() == i,
            forall|j: int| 0 <= j < i ==> !forbidden@[j],
        decreases n - i,
    {
        forbidden.push(false);
        i = i + 1;
    }
    let ghost views = batch_views(urls@);
    let mut g: usize = 0;
    while g < groups.len()
        invariant
            n == urls@.len(),
            views == batch_views(urls@),
            groups_partition(views, groups@),
            texts@.len() == groups@.len(),
            g <= groups@.len(),
            forbidden@.len() == n,
            forall|j: int|
                0 <= j < n ==> (forbidden@[j] <==> exists|g2: int, k: int|
                    0 <= g2 < g && 0 <= k < groups@[g2].indices@.len()
                        && #[trigger] groups@[g2].indices@[k] == j && texts@[g2]@.len() > 0
                        && robots_accepts(user_agent@, texts@[g2]@) && !robots_allows(
                        user_agent@,
                        texts@[g2]@,
                        views[j].href,
                    )),
        decreases groups@.len() - g,
    {
        let text = &texts[g];
        let tc = str_chars(text.as_str());
        if tc.len() > 0 {
            match RobotsRules::parse(user_agent, text.as_str()) {
                Ok(rules) => {
                    let idx = &groups[g].indices;
                    let mut k: usize = 0;
                    while k < idx.len()
                        invariant
                            n == urls@.len(),
                            views == batch_views(urls@),
                            groups_partition(views, groups@),
                            texts@.len() == groups@.len(),
                            g < groups@.len(),
                            idx == groups@[g as int].indices,
                            tc@ == texts@[g as int]@,
                            tc@.len() > 0,
                            rules.agent() == user_agent@,
                            rules.txt() == texts@[g as int]@,
                            robots_accepts(user_agent@, texts@[g as int]@),
                            k <= idx@.len(),
                            forbidden@.len() == n,
                            forall|j: int|
                                0 <= j < n ==> (forbidden@[j] <==> (exists|g2: int, k2: int|
                                    0 <= g2 < g && 0 <= k2 < groups@[g2].indices@.len()
                                        && #[trigger] groups@[g2].indices@[k2] == j
                                        && texts@[g2]@.len() > 0 && robots_accepts(
                                        user_agent@,
                                        texts@[g2]@,
                                    ) && !robots_allows(user_agent@, texts@[g2]@, views[j].href))
                                    || (exists|k2: int|
                                    0 <= k2 < k && #[trigger] idx@[k2] == j && !robots_allows(
                                        user_agent@,
                                        texts@[g as int]@,
                                        views[j].href,
                                    ))),
                        decreases idx@.len() - k,
                    {
                        let j = idx[k];
                        assert(0 <= j < n && groups@[g as int].indices@[k as int] == j);
                        assert(views[j as int] == urls@[j as int].1@);
                        if !rules.allows(urls[j].1.href.as_str()) {
                            forbidden.set(j, true);
                        }
                        k = k + 1;
                    }
                    proof {
                        assert forall|j: int| 0 <= j < n implies (forbidden@[j] <==> exists|g2: int, k2: int|
                            0 <= g2 < g + 1 && 0 <= k2 < groups@[g2].indices@.len()
                                && #[trigger] groups@[g2].indices@[k2] == j && texts@[g2]@.len() > 0
                                && robots_accepts(user_agent@, texts@[g2]@) && !robots_allows(
                                user_agent@,
                                texts@[g2]@,
                                views[j].href,
                            )) by {
                            if forbidden@[j] {
                                if exists|k2: int| 0 <= k2 < k && #[trigger] idx@[k2] == j && !robots_allows(
                                    user_agent@,
                                    texts@[g as int]@,
                                    views[j].href,
                                ) {
                                    let k2 = choose|k2: int| 0 <= k2 < k && #[trigger] idx@[k2] == j && !robots_allows(
                                        user_agent@,
                                        texts@[g as int]@,
                                        views[j].href,
                                    );
                                    assert(groups@[g as int].indices@[k2] == j);
                                }
                            }
                            if exists|g2: int, k2: int|
                                0 <= g2 < g + 1 && 0 <= k2 < groups@[g2].indices@.len()
                                    && #[trigger] groups@[g2].indices@[k2] == j && texts@[g2]@.len() > 0
                                    && robots_accepts(user_agent@, texts@[g2]@) && !robots_allows(
                                    user_agent@,
                                    texts@[g2]@,
                                    views[j].href,
                                ) {
                                let (g2, k2) = choose|g2: int, k2: int|
                                    0 <= g2 < g + 1 && 0 <= k2 < groups@[g2].indices@.len()
                                        && #[trigger] groups@[g2].indices@[k2] == j && texts@[g2]@.len() > 0
                                        && robots_accepts(user_agent@, texts@[g2]@) && !robots_allows(
                                        user_agent@,
                                        texts@[g2]@,
                                        views[j].href,
                                    );
                                if g2 == g {
                                    assert(idx@[k2] == j);
                                }
                            }
                        }
                    }
                },
                Err(_) => {},
            }
        }
        g = g + 1;
    }
    let mut out: Vec<(String, Result<UrlParts, Web2llmError>)> = Vec::new();
    let mut i: usize = 0;
    while i < n
        invariant
            n == urls@.len(),
            views == batch_views(urls@),
            i <= n,
            forbidden@.len() == n,
            out@.len() == i,
            forall|j: int|
                0 <= j < n ==> (forbidden@[j] <==> batch_forbidden(views, groups@, texts@, user_agent@, j)),
            forall|j: int|
                0 <= j < i ==> {
                    &&& (#[trigger] out@[j]).0@ == urls@[j].0@
                    &&& if batch_forbidden(views, groups@, texts@, user_agent@, j) {
                        out@[j].1 == Err::<UrlParts, Web2llmError>(Web2llmError::Disallowed)
                    } else {
                        out@[j].1 matches Ok(u) && u@ == urls@[j].1@
                    }
                },
        decreases n - i,
    {
        let rc = str_chars(urls[i].0.as_str());
        let raw = string_from_chars(rc.as_slice());
        if forbidden[i] {
            out.push((raw, Err(Web2llmError::Disallowed)));
        } else {
            out.push((raw, Ok(copy_parts(&urls[i].1))));
        }
        i = i + 1;
    }
    out
}

// ---------------------------------------------------------------------------
// Batch pre-flight
// ---------------------------------------------------------------------------

/// The URLs of a batch that pass validation, in order, with their parts.
pub open spec fn accepted_urls(urls: Seq<Seq<char>>, block_private_hosts: bool) -> Seq<(Seq<char>, UrlView)>
    decreases urls.len(),
{
    if urls.len() == 0 {
        Seq::empty()
    } else {
        let rest = accepted_urls(urls.drop_last(), block_private_hosts);
        match rejection(urls.last(), block_private_hosts) {
            Some(_) => rest,
            None => rest.push((urls.last(), url_parse(urls.last())->Some_0)),
        }
    }
}

/// The number of valid URLs before position `i` of a batch: the position,
/// among the valid URLs, of a valid URL at position `i`.
pub open spec fn accepted_before(urls: Seq<Seq<char>>, block_private_hosts: bool, i: int) -> nat {
    accepted_urls(urls.take(i), block_private_hosts).len()
}

/// The valid URLs of a prefix of a batch come first among those of a longer
/// prefix.
pub proof fn lemma_accepted_prefix(urls: Seq<Seq<char>>, block_private_hosts: bool, i: int, k: int)
    requires
        0 <= i <= k <= urls.len(),
    ensures
        accepted_urls(urls.take(i), block_private_hosts).is_prefix_of(
            accepted_urls(urls.take(k), block_private_hosts),
        ),
    decreases k - i,
{
    if i < k {
        lemma_accepted_prefix(urls, block_private_hosts, i, k - 1);
        assert(urls.take(k).drop_last() == urls.take(k - 1));
    }
}

/// A valid URL at position `i` is the valid URL numbered
/// `accepted_before(i)`.
pub proof fn lemma_accepted_at(urls: Seq<Seq<char>>, block_private_hosts: bool, i: int)
    requires
        0 <= i < urls.len(),
        rejection(urls[i], block_private_hosts) is None,
    ensures
        accepted_before(urls, block_private_hosts, i) < accepted_urls(urls, block_private_hosts).len(),
        accepted_urls(urls, block_private_hosts)[accepted_before(urls, block_private_hosts, i) as int]
            == (urls[i], url_parse(urls[i])->Some_0),
        accepted_before(urls, block_private_hosts, i + 1) == accepted_before(urls, block_private_hosts, i)
            + 1,
{
    assert(urls.take(i + 1).drop_last() == urls.take(i));
    assert(urls.take(i + 1).last() == urls[i]);
    let a1 = accepted_urls(urls.take(i + 1), block_private_hosts);
    assert(a1 == accepted_urls(urls.take(i), block_private_hosts).push((urls[i], url_parse(urls[i])->Some_0)));
    assert(urls.take(urls.len() as int) == urls);
    lemma_accepted_prefix(urls, block_private_hosts, i + 1, urls.len() as int);
    assert(a1[a1.len() - 1] == accepted_urls(urls, block_private_hosts)[a1.len() - 1]);
}

pub open spec fn pending_views(p: Seq<(String, UrlParts)>) -> Seq<(Seq<char>, UrlView)> {
    p.map_values(|x: (String, UrlParts)| (x.0@, x.1@))
}

pub open spec fn string_views(v: Seq<String>) -> Seq<Seq<char>> {
    v.map_values(|s: String| s@)
}

/// A batch pre-flight halfway through: every URL of the batch in input
/// order with the message it was rejected with (if it was), the valid URLs
/// waiting for the robots.txt check, and the sites whose robots.txt files
/// that check needs.
pub struct BatchPlan {
    raw: Vec<String>,
    rejections: Vec<Option<String>>,
    pending: Vec<(String, UrlParts)>,
    groups: Vec<RobotsGroup>,
    check_robots: bool,
    urls: Ghost<Seq<Seq<char>>>,
    block_private_hosts: Ghost<bool>,
}

impl BatchPlan {
    #[verifier::type_invariant]
    spec fn plan_fits(&self) -> bool {
        &&& string_views(self.raw@) == self.urls@
        &&& self.rejections@.len() == self.raw@.len()
        &&& forall|i: int|
            0 <= i < self.rejections@.len() ==> opt_view(#[trigger] self.rejections@[i]) == rejection(
                self.urls@[i],
                self.block_private_hosts@,
            )
        &&& pending_views(self.pending@) == accepted_urls(self.urls@, self.block_private_hosts@)
        &&& self.check_robots ==> groups_partition(batch_views(self.pending@), self.groups@)
        &&& !self.check_robots ==> self.groups@.len() == 0
    }

    /// The URLs of the batch, in input order.
    pub closed spec fn urls_view(&self) -> Seq<Seq<char>> {
        self.urls@
    }

    pub closed spec fn block_view(&self) -> bool {
        self.block_private_hosts@
    }

    pub closed spec fn check_robots_view(&self) -> bool {
        self.check_robots
    }

    /// The valid URLs waiting for the robots.txt check, in input order.
    pub closed spec fn pending_view(&self) -> Seq<(String, UrlParts)> {
        self.pending@
    }

    /// The sites whose robots.txt files the check needs.
    pub closed spec fn groups_view(&self) -> Seq<RobotsGroup> {
        self.groups@
    }

    /// Validates every URL of a batch; when the robots.txt check is on, the
    /// valid URLs are grouped by site, so that each site's file is fetched
    /// once.
    pub fn new(urls: &Vec<String>, block_private_hosts: bool, check_robots: bool) -> (r: Self)
        ensures
            r.urls_view() == string_views(urls@),
            r.block_view() == block_private_hosts,
            r.check_robots_view() == check_robots,
            pending_views(r.pending_view()) == accepted_urls(string_views(urls@), block_private_hosts),
            check_robots ==> groups_partition(batch_views(r.pending_view()), r.groups_view()),
            !check_robots ==> r.groups_view().len() == 0,
    {
        let ghost all = string_views(urls@);
        let mut raw: Vec<String> = Vec::new();
        let mut rejections: Vec<Option<String>> = Vec::new();
        let mut pending: Vec<(String, UrlParts)> = Vec::new();
        let mut i: usize = 0;
        while i < urls.len()
            invariant
                i <= urls@.len(),
                all == string_views(urls@),
                string_views(raw@) == all.take(i as int),
                rejections@.len() == i,
                forall|k: int|
                    0 <= k < i ==> opt_view(#[trigger] rejections@[k]) == rejection(all[k], block_private_hosts),
                pending_views(pending@) == accepted_urls(all.take(i as int), block_private_hosts),
            decreases urls@.len() - i,
        {
            proof {
                assert(all.take(i + 1).drop_last() == all.take(i as int));
                assert(all.take(i + 1).last() == urls@[i as int]@);
            }
            let ghost old_raw = string_views(raw@);
            let ghost old_pending = pending_views(pending@);
            let ghost old_rej = rejections@;
            raw.push(copy_string(&urls[i]));
            match validate(urls[i].as_str(), block_private_hosts) {
                Ok(u) => {
                    rejections.push(None);
                    pending.push((copy_string(&urls[i]), u));
                    proof {
                        assert(pending_views(pending@) == old_pending.push((urls@[i as int]@, u@)));
                    }
                },
                Err(e) => {
                    let m = match e {
                        Web2llmError::InvalidUrl(m) => m,
                        _ => {
                            proof {
                                assert(false);
                            }
                            copy_string(&urls[i])
                        },
                    };
                    rejections.push(Some(m));
                },
            }
            proof {
                assert(string_views(raw@) == old_raw.push(urls@[i as int]@));
                assert(all.take(i + 1) == all.take(i as int).push(all[i as int]));
                assert forall|k: int| 0 <= k < i + 1 implies opt_view(#[trigger] rejections@[k]) == rejection(
                    all[k],
                    block_private_hosts,
                ) by {
                    if k < i {
                        assert(rejections@[k] == old_rej[k]);
                    }
                }
            }
            i = i + 1;
        }
        proof {
            assert(all.take(urls@.len() as int) == all);
        }
        let groups = if check_robots {
            plan_robots_batch(&pending)
        } else {
            Vec::new()
        };
        BatchPlan {
            raw,
            rejections,
            pending,
            groups,
            check_robots,
            urls: Ghost(all),
            block_private_hosts: Ghost(block_private_hosts),
        }
    }

    /// Where the robots.txt files still needed are fetched from, one per
    /// site, in the order [`BatchPlan::finish`] takes their texts.
    pub fn robots_urls(&self) -> (r: Vec<String>)
        ensures
            r@.len() == self.groups_view().len(),
            forall|g: int| 0 <= g < r@.len() ==> (#[trigger] r@[g])@ == self.groups_view()[g].robots_url@,
    {
        let mut out: Vec<String> = Vec::new();
        let mut g: usize = 0;
        while g < self.groups.len()
            invariant
                g <= self.groups@.len(),
                out@.len() == g,
                forall|h: int| 0 <= h < g ==> (#[trigger] out@[h])@ == self.groups@[h].robots_url@,
            decreases self.groups@.len() - g,
        {
            out.push(copy_string(&self.groups[g].robots_url));
            g = g + 1;
        }
        out
    }

    /// Completes the batch with the fetched robots.txt texts (one per site,
    /// empty when a file could not be fetched). The outcomes follow the
    /// input order, one per URL: a URL that failed validation keeps its
    /// error; a valid URL is accepted unless the robots.txt check is on and
    /// its site's rules forbid it.
    pub fn finish(self, texts: &Vec<String>, user_agent: &str) -> (r: Vec<(String, Result<UrlParts, Web2llmError>)>)
        requires
            texts@.len() == self.groups_view().len(),
        ensures
            r@.len() == self.urls_view().len(),
            forall|i: int|
                0 <= i < r@.len() ==> {
                    let o = #[trigger] r@[i];
                    let u = self.urls_view()[i];
                    &&& o.0@ == u
                    &&& match rejection(u, self.block_view()) {
                        Some(m) => o.1 matches Err(Web2llmError::InvalidUrl(e)) && e@ == m,
                        None => if self.check_robots_view() && batch_forbidden(
                            batch_views(self.pending_view()),
                            self.groups_view(),
                            texts@,
                            user_agent@,
                            accepted_before(self.urls_view(), self.block_view(), i) as int,
                        ) {
                            o.1 == Err::<UrlParts, Web2llmError>(Web2llmError::Disallowed)
                        } else {
                            o.1 matches Ok(p) && p@ == url_parse(u)->Some_0
                        },
                    }
                },
    {
        proof {
            use_type_invariant(&self);
        }
        let ghost urls = self.urls@;
        let ghost block = self.block_private_hosts@;
        let ghost pv = batch_views(self.pending@);
        let n = self.raw.len();
        let mut forbidden: Vec<bool> = Vec::new();
        if self.check_robots {
            let checked = apply_robots_batch(&self.pending, &self.groups, texts, user_agent);
            assert forall|j: int| 0 <= j < self.pending@.len() implies ((#[trigger] checked@[j]).1 is Err
                <==> batch_forbidden(pv, self.groups@, texts@, user_agent@, j)) by {
                if batch_forbidden(pv, self.groups@, texts@, user_agent@, j) {
                } else {
                }
            }
            let mut k: usize = 0;
            while k < checked.len()
                invariant
                    checked@.len() == self.pending@.len(),
                    k <= checked@.len(),
                    forbidden@.len() == k,
                    forall|j: int|
                        0 <= j < self.pending@.len() ==> ((#[trigger] checked@[j]).1 is Err <==> batch_forbidden(
                            pv,
                            self.groups@,
                            texts@,
                            user_agent@,
                            j,
                        )),
                    forall|j: int| 0 <= j < k ==> forbidden@[j] == (#[trigger] checked@[j]).1 is Err,
                decreases checked@.len() - k,
            {
                forbidden.push(checked[k].1.is_err());
                k = k + 1;
            }
            assert forall|j: int| 0 <= j < self.pending@.len() implies #[trigger] forbidden@[j] == (
            self.check_robots && batch_forbidden(pv, self.groups@, texts@, user_agent@, j)) by {
                assert(forbidden@[j] == checked@[j].1 is Err);
            }
        } else {
            let mut k: usize = 0;
            while k < self.pending.len()
                invariant
                    k <= self.pending@.len(),
                    forbidden@.len() == k,
                    forall|j: int| 0 <= j < k ==> !forbidden@[j],
                decreases self.pending@.len() - k,
            {
                forbidden.push(false);
                k = k + 1;
            }
            assert forall|j: int| 0 <= j < self.pending@.len() implies #[trigger] forbidden@[j] == (
            self.check_robots && batch_forbidden(pv, self.groups@, texts@, user_agent@, j)) by {}
        }
        let mut out: Vec<(String, Result<UrlParts, Web2llmError>)> = Vec::new();
        let mut i: usize = 0;
        let mut j: usize = 0;
        while i < n
            invariant
                n == self.raw@.len(),
                i <= n,
                string_views(self.raw@) == urls,
                self.rejections@.len() == n,
                forall|k: int|
                    0 <= k < n ==> opt_view(#[trigger] self.rejections@[k]) == rejection(urls[k], block),
                pending_views(self.pending@) == accepted_urls(urls, block),
                pv == batch_views(self.pending@),
                forbidden@.len() == self.pending@.len(),
                forall|k: int|
                    0 <= k < self.pending@.len() ==> #[trigger] forbidden@[k] == (self.check_robots
                        && batch_forbidden(pv, self.groups@, texts@, user_agent@, k)),
                j == accepted_before(urls, block, i as int),
                j <= i,
                out@.len() == i,
                forall|k: int|
                    0 <= k < i ==> {
                        let o = #[trigger] out@[k];
                        &&& o.0@ == urls[k]
                        &&& match rejection(urls[k], block) {
                            Some(m) => o.1 matches Err(Web2llmError::InvalidUrl(e)) && e@ == m,
                            None => if self.check_robots && batch_forbidden(
                                pv,
                                self.groups@,
                                texts@,
                                user_agent@,
                                accepted_before(urls, block, k) as int,
                            ) {
                                o.1 == Err::<UrlParts, Web2llmError>(Web2llmError::Disallowed)
                            } else {
                                o.1 matches Ok(p) && p@ == url_parse(urls[k])->Some_0
                            },
                        }
                    },
            decreases n - i,
        {
            assert(urls[i as int] == self.raw@[i as int]@);
            let name = copy_string(&self.raw[i]);
            let ghost before = out@;
            match &self.rejections[i] {
                Some(m) => {
                    proof {
                        assert(urls.take(i + 1).drop_last() == urls.take(i as int));
                        assert(urls.take(i + 1).last() == urls[i as int]);
                    }
                    out.push((name, Err(Web2llmError::InvalidUrl(copy_string(m)))));
                },
                None => {
                    proof {
                        lemma_accepted_at(urls, block, i as int);
                        assert(pending_views(self.pending@)[j as int] == (
                            self.pending@[j as int].0@,
                            self.pending@[j as int].1@,
                        ));
                        assert(pv[j as int] == self.pending@[j as int].1@);
                        assert(pending_views(self.pending@).len() == self.pending@.len());
                        assert(j < self.pending@.len());
                    }
                    if forbidden[j] {
                        out.push((name, Err(Web2llmError::Disallowed)));
                    } else {
                        out.push((name, Ok(copy_parts(&self.pending[j].1))));
                    }
                    j = j + 1;
                },
            }
            proof {
                assert forall|k: int| 0 <= k < i implies #[trigger] out@[k] == before[k] by {}
            }
            i = i + 1;
        }
        out
    }
}

} // verus!

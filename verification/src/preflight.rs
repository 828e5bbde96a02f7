//! Pre-flight validation of URLs: parsing, allowed schemes, and protection
//! against requests to private or loopback hosts (SSRF).

use vstd::prelude::*;

use crate::error::Web2llmError;
use crate::text::{push_str, str_chars, str_eq, string_from_chars};

verus! {

/// The parts of a parsed URL that the pipeline reads.
pub struct UrlParts {
    /// The serialized URL.
    pub href: String,
    /// The scheme, lowercased by the parser.
    pub scheme: String,
    /// The host, as serialized (IPv6 addresses in brackets).
    pub host: Option<String>,
    /// The explicit port, absent when it is the scheme's default.
    pub port: Option<u16>,
    /// The port, or the scheme's default port when it has one.
    pub known_port: Option<u16>,
    /// The octets of the host when it is an IPv4 address.
    pub host_ipv4: Option<[u8; 4]>,
    /// The eight 16-bit segments of the host when it is an IPv6 address.
    pub host_ipv6: Option<[u16; 8]>,
    /// The serialized URL once its fragment is removed.
    pub without_fragment: String,
}

/// The abstract value of [`UrlParts`].
pub struct UrlView {
    pub href: Seq<char>,
    pub scheme: Seq<char>,
    pub host: Option<Seq<char>>,
    pub port: Option<u16>,
    pub known_port: Option<u16>,
    pub host_ipv4: Option<[u8; 4]>,
    pub host_ipv6: Option<[u16; 8]>,
    pub without_fragment: Seq<char>,
}

pub open spec fn opt_view(o: Option<String>) -> Option<Seq<char>> {
    match o {
        Some(s) => Some(s@),
        None => None,
    }
}

impl View for UrlParts {
    type V = UrlView;

    open spec fn view(&self) -> UrlView {
        UrlView {
            href: self.href@,
            scheme: self.scheme@,
            host: opt_view(self.host),
            port: self.port,
            known_port: self.known_port,
            host_ipv4: self.host_ipv4,
            host_ipv6: self.host_ipv6,
            without_fragment: self.without_fragment@,
        }
    }
}

/// What `url::Url::parse` gives for a text, read through `as_str`,
/// `scheme`, `host_str`, `port`, `port_or_known_default` and `host`, and
/// the serialization left after `set_fragment(None)`; `None` when the text
/// is not a valid URL.
pub uninterp spec fn url_parse(raw: Seq<char>) -> Option<UrlView>;

/// Parses a URL with `url::Url::parse` and reads its parts.
#[verifier::external_body]
pub(crate) fn parse_url(raw: &str) -> (r: Option<UrlParts>)
    ensures
        match r {
            Some(u) => url_parse(raw@) == Some(u@),
            None => url_parse(raw@) is None,
        },
{
    let u = url::Url::parse(raw).ok()?;
    let (host_ipv4, host_ipv6) = match u.host() {
        Some(url::Host::Ipv4(a)) => (Some(a.octets()), None),
        Some(url::Host::Ipv6(a)) => (None, Some(a.segments())),
        _ => (None, None),
    };
    Some(UrlParts {
        href: u.as_str().to_string(), scheme: u.scheme().to_string(),
        host: u.host_str().map(String::from), port: u.port(), known_port: u.port_or_known_default(),
        host_ipv4, host_ipv6, without_fragment: u[..url::Position::AfterQuery].to_string(),
    })
}

/// Loopback (`127.0.0.0/8`), private (`10.0.0.0/8`, `172.16.0.0/12`,
/// `192.168.0.0/16`) and link-local (`169.254.0.0/16`) IPv4 addresses.
pub open spec fn ipv4_is_private(ip: [u8; 4]) -> bool {
    let a = ip[0];
    let b = ip[1];
    a == 127 || a == 10 || (a == 172 && 16 <= b && b <= 31) || (a == 192 && b == 168) || (a
        == 169 && b == 254)
}

/// The IPv6 loopback address `::1`.
pub open spec fn ipv6_is_loopback(g: [u16; 8]) -> bool {
    g[0] == 0 && g[1] == 0 && g[2] == 0 && g[3] == 0 && g[4] == 0 && g[5] == 0 && g[6] == 0 && g[7]
        == 1
}

/// Whether the URL's host is a private, loopback, or link-local address:
/// such an IPv4 address, the IPv6 loopback address, or the name
/// `localhost` or `localhost.localdomain`. Other names are not resolved.
pub open spec fn url_is_private(u: UrlView) -> bool {
    match u.host {
        None => false,
        Some(h) => match (u.host_ipv4, u.host_ipv6) {
            (Some(ip), _) => ipv4_is_private(ip),
            (None, Some(g)) => ipv6_is_loopback(g),
            (None, None) => h == "localhost"@ || h == "localhost.localdomain"@,
        },
    }
}

/// Returns `true` if the host of `url` is a private, loopback, or
/// link-local address.
pub fn is_private_host(url: &UrlParts) -> (r: bool)
    ensures
        r == url_is_private(url@),
{
    match &url.host {
        None => false,
        Some(host) => match (url.host_ipv4, url.host_ipv6) {
            (Some(ip), _) => ip[0] == 127 || ip[0] == 10 || (ip[0] == 172 && 16 <= ip[1] && ip[1] <= 31)
                || (ip[0] == 192 && ip[1] == 168) || (ip[0] == 169 && ip[1] == 254),
            (None, Some(g)) => g[0] == 0 && g[1] == 0 && g[2] == 0 && g[3] == 0 && g[4] == 0 && g[5] == 0
                && g[6] == 0 && g[7] == 1,
            (None, None) => str_eq(host.as_str(), "localhost") || str_eq(
                host.as_str(),
                "localhost.localdomain",
            ),
        },
    }
}

/// The schemes that may be fetched.
pub open spec fn scheme_allowed(scheme: Seq<char>) -> bool {
    scheme == "http"@ || scheme == "https"@
}

/// The reason a URL is rejected, if it is: the checks apply in order, and
/// the first that fails gives the message.
pub open spec fn rejection(raw: Seq<char>, block_private_hosts: bool) -> Option<Seq<char>> {
    match url_parse(raw) {
        None => Some(raw),
        Some(u) => if !scheme_allowed(u.scheme) {
            Some("scheme '"@ + u.scheme + "' is not allowed"@)
        } else if u.host is None {
            Some("URL has no host"@)
        } else if url_is_private(u) && block_private_hosts {
            Some("private or loopback addresses are not allowed"@)
        } else {
            None
        },
    }
}

/// Validates a raw URL string and returns its parts on success.
///
/// Checks are performed in order: the string must parse as a URL, the
/// scheme must be `http` or `https`, the URL must have a host, and when
/// `block_private_hosts` is set the host must not be private, loopback, or
/// link-local. No network calls are made.
pub fn validate(raw: &str, block_private_hosts: bool) -> (r: Result<UrlParts, Web2llmError>)
    ensures
        match r {
            Ok(u) => rejection(raw@, block_private_hosts) is None && url_parse(raw@) == Some(u@),
            Err(e) => e matches Web2llmError::InvalidUrl(m) && rejection(raw@, block_private_hosts)
                == Some(m@),
        },
{
    let url = match parse_url(raw) {
        Some(u) => u,
        None => {
            let cs = str_chars(raw);
            return Err(Web2llmError::InvalidUrl(string_from_chars(cs.as_slice())));
        },
    };
    if !(str_eq(url.scheme.as_str(), "http") || str_eq(url.scheme.as_str(), "https")) {
        let mut msg: Vec<char> = Vec::new();
        push_str(&mut msg, "scheme '");
        push_str(&mut msg, url.scheme.as_str());
        push_str(&mut msg, "' is not allowed");
        return Err(Web2llmError::InvalidUrl(string_from_chars(msg.as_slice())));
    }
    if url.host.is_none() {
        let mut msg: Vec<char> = Vec::new();
        push_str(&mut msg, "URL has no host");
        return Err(Web2llmError::InvalidUrl(string_from_chars(msg.as_slice())));
    }
    if is_private_host(&url) && block_private_hosts {
        let mut msg: Vec<char> = Vec::new();
        push_str(&mut msg, "private or loopback addresses are not allowed");
        return Err(Web2llmError::InvalidUrl(string_from_chars(msg.as_slice())));
    }
    Ok(url)
}

} // verus!

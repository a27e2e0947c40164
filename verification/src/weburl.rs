//! URL parsing as the `url` crate performs it (WHATWG URL Standard), seen
//! through a plain record of the parts the library reads.
use vstd::prelude::*;

verus! {

/// The host of a parsed URL.
#[derive(Debug, Clone, PartialEq, Eq)]
pub enum UrlHost {
    /// A domain name (punycode for special schemes).
    Domain(String),
    /// An IPv4 address, as its four octets.
    Ipv4([u8; 4]),
    /// An IPv6 address, as its eight 16-bit segments.
    Ipv6([u16; 8]),
}

/// The mathematical value of a [`UrlHost`].
pub enum UrlHostModel {
    Domain(Seq<char>),
    Ipv4(Seq<u8>),
    Ipv6(Seq<u16>),
}

/// The parts of a parsed URL that the library reads.
#[derive(Debug, Clone)]
pub struct UrlParts {
    /// `Url::scheme`.
    pub scheme: String,
    /// `Url::host`.
    pub host: Option<UrlHost>,
    /// `Url::host_str` (IPv6 in brackets).
    pub host_str: Option<String>,
    /// `Url::port` (absent when it is the scheme's default).
    pub port: Option<u16>,
    /// `Url::port_or_known_default`.
    pub port_or_known_default: Option<u16>,
    /// `Url::path`.
    pub path: String,
    /// `Url::query` (without the `?`).
    pub query: Option<String>,
}

/// The mathematical value of a [`UrlParts`].
pub struct UrlPartsModel {
    pub scheme: Seq<char>,
    pub host: Option<UrlHostModel>,
    pub host_str: Option<Seq<char>>,
    pub port: Option<u16>,
    pub port_or_known_default: Option<u16>,
    pub path: Seq<char>,
    pub query: Option<Seq<char>>,
}

impl View for UrlHost {
    type V = UrlHostModel;

    open spec fn view(&self) -> UrlHostModel {
        match self {
            UrlHost::Domain(d) => UrlHostModel::Domain(d@),
            UrlHost::Ipv4(o) => UrlHostModel::Ipv4(o@),
            UrlHost::Ipv6(s) => UrlHostModel::Ipv6(s@),
        }
    }
}

impl View for UrlParts {
    type V = UrlPartsModel;

    open spec fn view(&self) -> UrlPartsModel {
        UrlPartsModel {
            scheme: self.scheme@,
            host: match self.host {
                Some(h) => Some(h@),
                None => None,
            },
            host_str: match self.host_str {
                Some(h) => Some(h@),
                None => None,
            },
            port: self.port,
            port_or_known_default: self.port_or_known_default,
            path: self.path@,
            query: match self.query {
                Some(q) => Some(q@),
                None => None,
            },
        }
    }
}

/// What `url::Url::parse` makes of a string: its parts, or `None` when the
/// string is not an absolute URL.
pub uninterp spec fn url_parts_of(s: Seq<char>) -> Option<UrlPartsModel>;

/// What `url::Url::join` gives for a reference resolved against a base URL
/// (the serialization of the result), or `None` when the base does not parse
/// or the reference cannot be resolved against it.
pub uninterp spec fn url_join_of(base: Seq<char>, reference: Seq<char>) -> Option<Seq<char>>;

/// What `url::Url::set_fragment(None)` leaves of a URL's serialization, or
/// `None` when the string does not parse.
pub uninterp spec fn url_without_fragment_of(s: Seq<char>) -> Option<Seq<char>>;

/// Calls `url::Url::parse` and reads `scheme`, `host`, `host_str`, `port`,
/// `port_or_known_default`, `path` and `query` of the result.
///
/// Trusted: the record is `url_parts_of` of the input; nothing further about
/// URL parsing is claimed.
#[verifier::external_body]
pub(crate) fn parse_url(s: &str) -> (r: Option<UrlParts>)
    ensures
        match r {
            Some(p) => url_parts_of(s@) == Some(p@),
            None => url_parts_of(s@) is None,
        },
{
    let u = url::Url::parse(s).ok()?;
    let host = u.host().map(|h| match h {
        url::Host::Domain(d) => UrlHost::Domain(d.to_string()),
        url::Host::Ipv4(a) => UrlHost::Ipv4(a.octets()),
        url::Host::Ipv6(a) => UrlHost::Ipv6(a.segments()),
    });
    Some(UrlParts {
        scheme: u.scheme().to_string(),
        host,
        host_str: u.host_str().map(|h| h.to_string()),
        port: u.port(),
        port_or_known_default: u.port_or_known_default(),
        path: u.path().to_string(),
        query: u.query().map(|q| q.to_string()),
    })
}

/// Calls `url::Url::parse` on `base` and `url::Url::join` with `reference`,
/// returning the serialization of the result.
///
/// Trusted: the result is `url_join_of` of the two inputs.
#[verifier::external_body]
pub(crate) fn join_url(base: &str, reference: &str) -> (r: Option<String>)
    ensures
        match r {
            Some(j) => url_join_of(base@, reference@) == Some(j@),
            None => url_join_of(base@, reference@) is None,
        },
{
    let b = url::Url::parse(base).ok()?;
    b.join(reference).ok().map(|u| u.as_str().to_string())
}

/// Calls `url::Url::parse` and `url::Url::set_fragment(None)`, returning the
/// serialization of the result.
///
/// Trusted: the result is `url_without_fragment_of` of the input.
#[verifier::external_body]
pub(crate) fn url_without_fragment(s: &str) -> (r: Option<String>)
    ensures
        match r {
            Some(j) => url_without_fragment_of(s@) == Some(j@),
            None => url_without_fragment_of(s@) is None,
        },
{
    let mut u = url::Url::parse(s).ok()?;
    u.set_fragment(None);
    Some(u.as_str().to_string())
}

/// What `url::Url::set_path` makes of a URL (its serialization), or `None`
/// when the string does not parse.
pub uninterp spec fn url_with_path_of(s: Seq<char>, path: Seq<char>) -> Option<Seq<char>>;

/// Calls `url::Url::parse` and `url::Url::set_path`, returning the
/// serialization of the result.
///
/// Trusted: the result is `url_with_path_of` of the inputs.
#[verifier::external_body]
pub(crate) fn url_with_path(s: &str, path: &str) -> (r: Option<String>)
    ensures
        match r {
            Some(j) => url_with_path_of(s@, path@) == Some(j@),
            None => url_with_path_of(s@, path@) is None,
        },
{
    let mut u = url::Url::parse(s).ok()?;
    u.set_path(path);
    Some(u.as_str().to_string())
}

} // verus!

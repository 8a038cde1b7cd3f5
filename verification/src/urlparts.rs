//! The parts of a parsed URL that the shell reads, taken from the `url` crate.

use vstd::prelude::*;

verus! {

/// A URL as parsed by `url::Url::parse`, by the parts the shell reads.
pub struct UrlParts {
    /// `Url::host_str`.
    pub host: Option<String>,
    /// `Url::port`: the explicit port, absent when it is the scheme's default.
    pub port: Option<u16>,
    /// `Url::path`.
    pub path: String,
    /// `Url::query`.
    pub query: Option<String>,
    /// `Url::query_pairs`, decoded, in order.
    pub query_pairs: Vec<(String, String)>,
    /// `Url::origin().ascii_serialization()`.
    pub origin: String,
    /// `Url::as_str`, the serialization.
    pub href: String,
}

/// A parsed URL by its contents.
pub struct UrlView {
    pub host: Option<Seq<char>>,
    pub port: Option<u16>,
    pub path: Seq<char>,
    pub query: Option<Seq<char>>,
    pub query_pairs: Seq<(Seq<char>, Seq<char>)>,
    pub origin: Seq<char>,
    pub href: Seq<char>,
}

pub open spec fn opt_str(o: Option<String>) -> Option<Seq<char>> {
    match o {
        Some(s) => Some(s@),
        None => None,
    }
}

pub open spec fn pair_views(v: Seq<(String, String)>) -> Seq<(Seq<char>, Seq<char>)> {
    v.map_values(|p: (String, String)| (p.0@, p.1@))
}

impl View for UrlParts {
    type V = UrlView;

    open spec fn view(&self) -> UrlView {
        UrlView {
            host: opt_str(self.host),
            port: self.port,
            path: self.path@,
            query: opt_str(self.query),
            query_pairs: pair_views(self.query_pairs@),
            origin: self.origin@,
            href: self.href@,
        }
    }
}

pub open spec fn opt_url(o: Option<UrlParts>) -> Option<UrlView> {
    match o {
        Some(u) => Some(u@),
        None => None,
    }
}

/// What `url::Url::parse` makes of `input` (`None` when it is not an
/// absolute URL), read through the accessors listed on [`UrlParts`].
pub uninterp spec fn url_parse(input: Seq<char>) -> Option<UrlView>;

/// `url::Url::parse`, with the parsed URL read out through `host_str`,
/// `port`, `path`, `query`, `query_pairs`, `origin` and `as_str`. The contract only
/// names the outcome: WHATWG URL parsing is not restated here.
#[verifier::external_body]
pub(crate) fn parse_url(input: &str) -> (r: Option<UrlParts>)
    ensures
        opt_url(r) == url_parse(input@),
{
    match url::Url::parse(input) {
        Ok(u) => Some(UrlParts {
            host: u.host_str().map(|h| h.to_string()),
            port: u.port(),
            path: u.path().to_string(),
            query: u.query().map(|q| q.to_string()),
            query_pairs: u.query_pairs().map(|(k, v)| (k.into_owned(), v.into_owned())).collect(),
            origin: u.origin().ascii_serialization(),
            href: u.as_str().to_string(),
        }),
        Err(_) => None,
    }
}

} // verus!

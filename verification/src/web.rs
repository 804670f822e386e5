//! What a URL is made of.

use vstd::prelude::*;
use vstd::string::*;
use crate::text::{decimal, opt_text, text_eq};

verus! {

/// The parts of a URL that decisions are made on.
pub struct ParsedUrl {
    pub scheme: String,
    pub host: Option<String>,
    /// User, host and port, as they stand between `//` and the path.
    pub authority: String,
    pub path: String,
    /// The port, unless it is the usual one of the scheme.
    pub port: Option<u16>,
}

/// The parts of a URL as texts.
pub struct UrlParts {
    pub scheme: Seq<char>,
    pub host: Option<Seq<char>>,
    pub authority: Seq<char>,
    pub path: Seq<char>,
    pub port: Option<u16>,
}

impl View for ParsedUrl {
    type V = UrlParts;

    open spec fn view(&self) -> UrlParts {
        UrlParts {
            scheme: self.scheme@,
            host: opt_text(self.host),
            authority: self.authority@,
            path: self.path@,
            port: self.port,
        }
    }
}

/// The parts that the URL grammar gives a text, or nothing where the text is no
/// absolute URL.
pub uninterp spec fn url_parts(s: Seq<char>) -> Option<UrlParts>;

/// `url::Url::parse`, read through `scheme`, `host_str`, `authority`, `path`
/// and `port`. The parts are a function of the text.
#[verifier::external_body]
pub(crate) fn parse_url(s: &str) -> (r: Option<ParsedUrl>)
    ensures
        match r {
            Some(u) => url_parts(s@) == Some(u@),
            None => url_parts(s@) is None,
        },
{
    match url::Url::parse(s) {
        Ok(u) => Some(ParsedUrl {
            scheme: u.scheme().to_string(),
            host: u.host_str().map(|h| h.to_string()),
            authority: u.authority().to_string(),
            path: u.path().to_string(),
            port: u.port(),
        }),
        Err(_) => None,
    }
}

/// Whether URLs of a scheme have an origin of scheme, host and port.
pub open spec fn has_origin(scheme: Seq<char>) -> bool {
    scheme == "ftp"@ || scheme == "http"@ || scheme == "https"@ || scheme == "ws"@ || scheme
        == "wss"@
}

/// The origin of a URL that holds no other.
pub open spec fn flat_origin(u: UrlParts) -> Seq<char> {
    if has_origin(u.scheme) {
        u.scheme + "://"@ + (match u.host {
            Some(h) => h,
            None => Seq::empty(),
        }) + (match u.port {
            Some(n) => ":"@ + decimal(n as nat),
            None => Seq::empty(),
        })
    } else {
        "null"@
    }
}

/// The origin of a URL in its ASCII form. That of a `blob:` URL is the origin of
/// the URL that it holds; a `blob:` URL in another has the shorter path.
pub open spec fn origin_text(u: UrlParts) -> Seq<char>
    decreases u.path.len(),
{
    if u.scheme == "blob"@ {
        match url_parts(u.path) {
            Some(inner) => if inner.scheme != "blob"@ {
                flat_origin(inner)
            } else if inner.path.len() < u.path.len() {
                origin_text(inner)
            } else {
                "null"@
            },
            None => "null"@,
        }
    } else {
        flat_origin(u)
    }
}

/// The origin of the URL that a text names, in its ASCII form.
pub open spec fn origin_of(s: Seq<char>) -> Option<Seq<char>> {
    match url_parts(s) {
        Some(u) => Some(origin_text(u)),
        None => None,
    }
}

/// `url::Url::origin` with `Origin::ascii_serialization`, of the URL that
/// `url::Url::parse` gives: scheme, host and the port that is not the usual one,
/// or `null` where the scheme has no such origin. `blob:` URLs are left out: there
/// `origin` calls itself once for every `blob:` in the text, however many there are.
#[verifier::external_body]
fn parse_flat_origin(s: &str) -> (r: Option<String>)
    requires
        url_parts(s@) is Some ==> url_parts(s@)->0.scheme != "blob"@,
    ensures
        match url_parts(s@) {
            Some(u) => r is Some && r->0@ == flat_origin(u),
            None => r is None,
        },
{
    url::Url::parse(s).ok().map(|u| u.origin().ascii_serialization())
}

/// The origin of the URL that a text names, in its ASCII form.
pub fn url_origin(url: &str) -> (r: Option<String>)
    ensures
        opt_text(r) == origin_of(url@),
{
    let mut u = match parse_url(url) {
        Some(u) => u,
        None => {
            return None;
        },
    };
    let mut text = url.to_owned();
    while text_eq(u.scheme.as_str(), "blob")
        invariant
            url_parts(text@) == Some(u@),
            origin_of(url@) == Some(origin_text(u@)),
        decreases u@.path.len(),
    {
        match parse_url(u.path.as_str()) {
            Some(inner) => {
                if !text_eq(inner.scheme.as_str(), "blob") {
                    return parse_flat_origin(u.path.as_str());
                }
                if inner.path.as_str().unicode_len() >= u.path.as_str().unicode_len() {
                    return Some("null".to_owned());
                }
                text = u.path;
                u = inner;
            },
            None => {
                return Some("null".to_owned());
            },
        }
    }
    parse_flat_origin(text.as_str())
}

} // verus!

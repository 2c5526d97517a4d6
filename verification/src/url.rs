//! URLs, read by the parser that the HTTP client uses.

use vstd::prelude::*;
use vstd::string::*;


verus! {

/// What is asked of a URL: its scheme, its host, and its port, which the scheme gives
/// where the text does not.
#[derive(Debug, PartialEq, Eq)]
pub struct Url {
    pub scheme: String,
    pub host: Option<String>,
    pub port: Option<u16>,
}

/// The parts of a URL as plain values.
pub struct UrlView {
    pub scheme: Seq<char>,
    pub host: Option<Seq<char>>,
    pub port: Option<u16>,
}

impl View for Url {
    type V = UrlView;

    open spec fn view(&self) -> UrlView {
        UrlView {
            scheme: self.scheme@,
            host: match self.host {
                Some(h) => Some(h@),
                None => None,
            },
            port: self.port,
        }
    }
}

/// What a result holds, as plain values.
pub open spec fn url_view(r: Result<Url, String>) -> Result<UrlView, Seq<char>> {
    match r {
        Ok(u) => Ok(u@),
        Err(e) => Err(e@),
    }
}

/// The URL that a text is, or why it is none.
pub uninterp spec fn url_in(text: Seq<char>) -> Result<UrlView, Seq<char>>;

/// `reqwest::Url::parse`, with the scheme, `host_str` and `port_or_known_default` of
/// what it gives: a function of the text, and so is the text of its error.
#[verifier::external_body]
pub(crate) fn read_url(text: &str) -> (r: Result<Url, String>)
    ensures
        url_view(r) == url_in(text@),
{
    let u = reqwest::Url::parse(text).map_err(|e| e.to_string())?;
    Ok(
        Url {
            scheme: u.scheme().to_string(),
            host: u.host_str().map(|h| h.to_string()),
            port: u.port_or_known_default(),
        },
    )
}

/// An address is seen by its scheme, its host and its port.
pub proof fn law_an_address_is_seen_whole(u: Url)
    ensures
        u@.scheme == u.scheme@,
        u@.host is Some <==> u.host is Some,
        u.host is Some ==> u@.host->Some_0 == u.host->Some_0@,
        u@.port == u.port,
{
}

} // verus!

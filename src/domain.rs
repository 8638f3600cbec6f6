//! Turning a link target into the host name that keys the icon cache.
use vstd::prelude::*;
use vstd::string::StringSliceAdditionalSpecFns;

verus! {

/// The host of the URL written in the UTF-8 bytes `href`, or `None` where the
/// bytes are not a well-formed URL or the URL has no host.
pub uninterp spec fn url_host(href: Seq<u8>) -> Option<Seq<char>>;

/// Relies on `url::Url::parse` and `Url::host_str`: the host of a
/// well-formed URL, if it has one.
#[verifier::external_body]
pub(crate) fn parse_host(href: &[u8]) -> (r: Option<String>)
    ensures
        match r {
            Some(h) => url_host(href@) == Some(h@),
            None => url_host(href@) == None::<Seq<char>>,
        },
{
    std::str::from_utf8(href).ok().and_then(|s| url::Url::parse(s).ok()).and_then(
        |u| u.host_str().map(|h| h.to_string()),
    )
}

/// The host name of a link, or `None` where the link cannot be resolved.
pub fn extract_domain(url: &str) -> (r: Option<String>)
    ensures
        match r {
            Some(h) => url_host(url.spec_bytes()) == Some(h@),
            None => url_host(url.spec_bytes()) == None::<Seq<char>>,
        },
{
    parse_host(url.as_bytes())
}

} // verus!

//! Exchanges with trackers.
use crate::text;
use vstd::prelude::*;

pub mod http;
pub mod udp;

verus! {

/// The scheme of the URL that a text is, if it is one.
pub uninterp spec fn scheme_of(text: Seq<char>) -> Option<Seq<char>>;

/// `Url::parse` and `Url::scheme` of `reqwest`: the scheme of a URL, or nothing for a text that is
/// not one. It depends on the text alone. Which texts are URLs is not stated.
#[verifier::external_body]
pub(crate) fn parse_scheme(text: &str) -> (scheme: Option<String>)
    ensures
        text::text_of(scheme) == scheme_of(text@),
{
    reqwest::Url::parse(text).ok().map(|url| url.scheme().to_owned())
}

/// How a tracker can be reached.
#[derive(Copy, Clone, Debug, PartialEq, Eq, Structural)]
pub enum Protocol {
    /// Over HTTP or HTTPS.
    Http,
    /// Over UDP.
    Udp,
    /// In a way that is not supported.
    Unsupported,
    /// In no way, because its address is not a URL.
    NotAnAddress,
}

/// How a tracker can be reached whose URL has the given scheme.
pub open spec fn protocol_of(scheme: Option<Seq<char>>) -> Protocol {
    match scheme {
        None => Protocol::NotAnAddress,
        Some(scheme) => if scheme == "http"@ || scheme == "https"@ {
            Protocol::Http
        } else if scheme == "udp"@ {
            Protocol::Udp
        } else {
            Protocol::Unsupported
        },
    }
}

/// Decides how to reach a tracker whose URL has the given scheme.
pub fn protocol_for(scheme: &Option<String>) -> (protocol: Protocol)
    ensures
        protocol == protocol_of(text::text_of(*scheme)),
{
    match scheme {
        None => Protocol::NotAnAddress,
        Some(scheme) => if *scheme == "http".to_owned() || *scheme == "https".to_owned() {
            Protocol::Http
        } else if *scheme == "udp".to_owned() {
            Protocol::Udp
        } else {
            Protocol::Unsupported
        },
    }
}

/// Decides how to reach a tracker.
pub fn protocol(announce: &str) -> (protocol: Protocol)
    ensures
        protocol == protocol_of(scheme_of(announce@)),
{
    protocol_for(&parse_scheme(announce))
}

/// A tracker is reached over HTTP exactly when its URL has the scheme `http` or `https`, over UDP
/// exactly when it has the scheme `udp`, and in no way exactly when its address is not a URL.
pub proof fn schemes_decide(scheme: Option<Seq<char>>)
    ensures
        protocol_of(scheme) == Protocol::Http <==> scheme == Some("http"@) || scheme == Some(
            "https"@,
        ),
        protocol_of(scheme) == Protocol::Udp <==> scheme == Some("udp"@),
        protocol_of(scheme) == Protocol::NotAnAddress <==> scheme is None,
{
    reveal_strlit("http");
    reveal_strlit("https");
    reveal_strlit("udp");
    assert("udp"@.len() == 3 && "http"@.len() == 4 && "https"@.len() == 5);
}

} // verus!

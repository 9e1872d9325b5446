//! Network locations as the `http` crate reads them.

use vstd::prelude::*;

verus! {

/// The parts of a network location that the node agent looks at.
#[derive(Debug, PartialEq, Eq)]
pub struct UriParts {
    /// Host of the authority, if the location names one.
    pub host: Option<String>,
    /// Port of the authority, if the location names one.
    pub port: Option<u16>,
    /// Path of the location; empty where it has none.
    pub path: String,
}

/// The parts of a location over character sequences.
pub struct UriPartsView {
    pub host: Option<Seq<char>>,
    pub port: Option<u16>,
    pub path: Seq<char>,
}

impl View for UriParts {
    type V = UriPartsView;

    open spec fn view(&self) -> UriPartsView {
        UriPartsView {
            host: match self.host {
                Some(host) => Some(host@),
                None => None,
            },
            port: self.port,
            path: self.path@,
        }
    }
}

/// What `http::Uri` makes of `text`: `None` where it does not parse as a URI,
/// else the host, port and path it finds in it.
pub uninterp spec fn parsed_uri(text: Seq<char>) -> Option<UriPartsView>;

/// The parts of `parts` over character sequences, where there are any.
pub open spec fn parts_view(parts: Option<UriParts>) -> Option<UriPartsView> {
    match parts {
        Some(p) => Some(p@),
        None => None,
    }
}

/// Parses `text` with `http::Uri::from_str` and reads the result with
/// `Uri::host`, `Uri::port_u16` and `Uri::path`.
///
/// Taken on trust: the outcome is a function of the text alone. Nothing is
/// claimed about which texts parse, nor about what the parts hold.
#[verifier::external_body]
pub(crate) fn parse_uri(text: &str) -> (parts: Option<UriParts>)
    ensures
        parts_view(parts) == parsed_uri(text@),
{
    match text.parse::<http::Uri>() {
        Ok(uri) => Some(
            UriParts {
                host: match uri.host() {
                    Some(host) => Some(host.to_owned()),
                    None => None,
                },
                port: uri.port_u16(),
                path: uri.path().to_owned(),
            },
        ),
        Err(_) => None,
    }
}

} // verus!

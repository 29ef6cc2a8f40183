//! Parsed-URL data for the classifier, produced by the `url` crate.
//!
//! Relative resolution against a base URL (RFC 3986 / WHATWG) is far too
//! large to restate here, and it is a pure function of its two inputs, so the
//! result of each of the two calls this crate makes — parsing an absolute URL
//! and resolving a candidate target against a base — is given a name
//! (`parse_of`, `join_of`), and everything the classifier reads of a resolved
//! URL travels as plain bytes in `UrlParts`.
use vstd::prelude::*;

verus! {

/// Mathematical image of a parsed URL: what the classifier reads of it.
pub ghost struct UrlModel {
    /// The full serialization, as the `url` crate writes it.
    pub serialized: Seq<u8>,
    /// Whether the origin is a real (scheme, host, port) tuple; an opaque
    /// origin is never equal to any other origin.
    pub origin_is_tuple: bool,
    /// The ASCII serialization of the origin.
    pub origin: Seq<u8>,
    /// The path component.
    pub path: Seq<u8>,
    /// Whether a query string is present.
    pub has_query: bool,
}

/// A parsed URL reduced to the plain values the classifier works on.
pub struct UrlParts {
    pub serialized: Vec<u8>,
    pub origin_is_tuple: bool,
    pub origin: Vec<u8>,
    pub path: Vec<u8>,
    pub has_query: bool,
}

impl View for UrlParts {
    type V = UrlModel;

    open spec fn view(&self) -> UrlModel {
        UrlModel {
            serialized: self.serialized@,
            origin_is_tuple: self.origin_is_tuple,
            origin: self.origin@,
            path: self.path@,
            has_query: self.has_query,
        }
    }
}

/// The model of an optional `UrlParts`.
pub open spec fn opt_model(r: Option<UrlParts>) -> Option<UrlModel> {
    match r {
        Some(p) => Some(p@),
        None => None,
    }
}

/// What `url::Url::parse` makes of `s`: `None` when `s` is not UTF-8 or does
/// not parse as an absolute URL, otherwise the parsed URL's parts.
pub uninterp spec fn parse_of(s: Seq<u8>) -> Option<UrlModel>;

/// What resolving `target` against the URL parsed from `base` yields:
/// `None` when `base` does not parse, `target` is not UTF-8, or resolution
/// fails; otherwise the resolved URL's parts.
pub uninterp spec fn join_of(base: Seq<u8>, target: Seq<u8>) -> Option<UrlModel>;

/// Relies on `url::Url::parse`, `Url::origin` (with
/// `Origin::is_tuple` / `Origin::ascii_serialization`), `Url::path` and
/// `Url::query`: parsing is a pure function of the input text, and the rest
/// only read components of the parsed value.
#[verifier::external_body]
pub(crate) fn parse_url(s: &[u8]) -> (r: Option<UrlParts>)
    ensures
        opt_model(r) == parse_of(s@),
{
    let u = url::Url::parse(core::str::from_utf8(s).ok()?).ok()?;
    let origin = u.origin();
    Some(UrlParts {
        serialized: u.as_str().as_bytes().to_vec(),
        origin_is_tuple: origin.is_tuple(),
        origin: origin.ascii_serialization().into_bytes(),
        path: u.path().as_bytes().to_vec(),
        has_query: u.query().is_some(),
    })
}

/// Relies on `url::Url::parse` and `Url::join`: resolving `target` against
/// the parsed base is a pure function of the two byte strings; the component
/// reads are as in `parse_url`.
#[verifier::external_body]
pub(crate) fn join_url(base: &[u8], target: &[u8]) -> (r: Option<UrlParts>)
    ensures
        opt_model(r) == join_of(base@, target@),
{
    let b = url::Url::parse(core::str::from_utf8(base).ok()?).ok()?;
    let u = b.join(core::str::from_utf8(target).ok()?).ok()?;
    let origin = u.origin();
    Some(UrlParts {
        serialized: u.as_str().as_bytes().to_vec(),
        origin_is_tuple: origin.is_tuple(),
        origin: origin.ascii_serialization().into_bytes(),
        path: u.path().as_bytes().to_vec(),
        has_query: u.query().is_some(),
    })
}

} // verus!

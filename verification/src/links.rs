//! The link classifier.
//!
//! A fetched listing page is scanned for anchor targets; each target is
//! resolved against the page's own URL and then either kept — as a deeper
//! `Listing` to crawl or a terminal `Artifact` to download — or discarded.
//! Discarded are: targets that do not resolve, resolved URLs carrying a query
//! string, URLs on another origin, and URLs whose path does not have strictly
//! more `/`-separated segments than the page's own path — the crawl is a
//! strict descent, so a parent-escaping or same-depth sibling link is never
//! followed.
use vstd::prelude::*;

use crate::scan::{extract_hrefs, scan_from, views_of};
use crate::text::{
    bytes_eq, count_byte, count_byte_spec, ends_with, find_last, has_suffix, last_index_of,
};
use crate::urls::{join_of, join_url, parse_of, parse_url, UrlModel, UrlParts};

verus! {

/// The path-separator byte `/`.
pub const SLASH: u8 = 47;

/// Mathematical image of a classified link.
pub ghost enum LinkModel {
    /// A deeper directory listing to crawl further.
    Listing { url: Seq<u8> },
    /// A terminal package file: the derived package name and the URL to
    /// download it from.
    Artifact { package: Seq<u8>, download_url: Seq<u8> },
}

/// A classified link, as byte strings (serialized URLs are ASCII).
pub enum Link {
    Listing { url: Vec<u8> },
    Artifact { package: Vec<u8>, download_url: Vec<u8> },
}

impl View for Link {
    type V = LinkModel;

    open spec fn view(&self) -> LinkModel {
        match self {
            Link::Listing { url } => LinkModel::Listing { url: url@ },
            Link::Artifact { package, download_url } => LinkModel::Artifact {
                package: package@,
                download_url: download_url@,
            },
        }
    }
}

/// The views of a sequence of links.
pub open spec fn link_views(s: Seq<Link>) -> Seq<LinkModel> {
    s.map_values(|l: Link| l@)
}

/// The `.deb` package-archive suffix.
pub open spec fn deb_suffix() -> Seq<u8> {
    seq![46u8, 100u8, 101u8, 98u8]
}

/// The `.ddeb` debug-package suffix.
pub open spec fn ddeb_suffix() -> Seq<u8> {
    seq![46u8, 100u8, 100u8, 101u8, 98u8]
}

/// A URL whose serialization names a package archive.
pub open spec fn is_artifact_url(s: Seq<u8>) -> bool {
    ends_with(s, deb_suffix()) || ends_with(s, ddeb_suffix())
}

/// A URL whose serialization ends in `/`: a deeper directory listing.
pub open spec fn is_listing_url(s: Seq<u8>) -> bool {
    ends_with(s, seq![SLASH])
}

/// The package name a download URL's path implies: the path segment between
/// the last two `/` separators (the segment just above the file name).
/// `None` when the path has no two separators to cut it out of.
pub open spec fn pkg_segment(path: Seq<u8>) -> Option<Seq<u8>> {
    let j = last_index_of(path, SLASH);
    if j < 0 {
        None
    } else {
        let i = last_index_of(path.take(j), SLASH);
        if i < 0 {
            None
        } else {
            Some(path.subrange(i + 1, j))
        }
    }
}

/// Classify an already-resolved target URL against the page's own parts.
pub open spec fn classify_resolved(base: UrlModel, t: UrlModel) -> Option<LinkModel> {
    if t.has_query {
        None
    } else if !(base.origin_is_tuple && t.origin_is_tuple && t.origin == base.origin) {
        None
    } else if count_byte_spec(t.path, SLASH) <= count_byte_spec(base.path, SLASH) {
        None
    } else if is_artifact_url(t.serialized) {
        match pkg_segment(t.path) {
            Some(name) => Some(
                LinkModel::Artifact { package: name, download_url: t.serialized },
            ),
            None => None,
        }
    } else if is_listing_url(t.serialized) {
        Some(LinkModel::Listing { url: t.serialized })
    } else {
        None
    }
}

/// Classify one raw anchor target found on a page whose parts are `base`.
pub open spec fn classify_of(base: UrlModel, target: Seq<u8>) -> Option<LinkModel> {
    match join_of(base.serialized, target) {
        Some(t) => classify_resolved(base, t),
        None => None,
    }
}

/// All links kept from the given targets, in page order.
pub open spec fn classify_all(base: UrlModel, targets: Seq<Seq<u8>>) -> Seq<LinkModel>
    decreases targets.len(),
{
    if targets.len() == 0 {
        Seq::empty()
    } else {
        let rest = classify_all(base, targets.drop_last());
        match classify_of(base, targets.last()) {
            Some(l) => rest.push(l),
            None => rest,
        }
    }
}

/// Every link of a page: its body's anchor targets, classified against its
/// URL. Empty when the page's own URL does not parse.
pub open spec fn page_links(base_url: Seq<u8>, body: Seq<u8>) -> Seq<LinkModel> {
    match parse_of(base_url) {
        Some(b) => classify_all(b, scan_from(body, 0)),
        None => Seq::empty(),
    }
}

/// The model of an optional link.
pub open spec fn opt_link(r: Option<Link>) -> Option<LinkModel> {
    match r {
        Some(l) => Some(l@),
        None => None,
    }
}

/// The package segment of a path: the bytes between its last two `/`s.
pub fn package_segment(path: &[u8]) -> (r: Option<Vec<u8>>)
    ensures
        opt_bytes(r) == pkg_segment(path@),
{
    match find_last(path, SLASH) {
        None => None,
        Some(j) => {
            proof {
                crate::text::lemma_last_index_of_bounds(path@, SLASH);
            }
            let prefix = vstd::slice::slice_subrange(path, 0, j);
            proof {
                assert(prefix@ =~= path@.take(j as int));
            }
            match find_last(prefix, SLASH) {
                None => None,
                Some(i) => {
                    proof {
                        crate::text::lemma_last_index_of_bounds(path@.take(j as int), SLASH);
                    }
                    Some(vstd::slice::slice_to_vec(vstd::slice::slice_subrange(path, i + 1, j)))
                },
            }
        },
    }
}

/// The model of an optional byte string.
pub open spec fn opt_bytes(r: Option<Vec<u8>>) -> Option<Seq<u8>> {
    match r {
        Some(v) => Some(v@),
        None => None,
    }
}

/// Resolve one anchor target against the page's parts and classify it.
pub fn classify_target(base: &UrlParts, target: &[u8]) -> (r: Option<Link>)
    ensures
        opt_link(r) == classify_of(base@, target@),
{
    let resolved = join_url(base.serialized.as_slice(), target);
    match resolved {
        None => None,
        Some(t) => {
            if t.has_query {
                return None;
            }
            if !(base.origin_is_tuple && t.origin_is_tuple) {
                return None;
            }
            if !bytes_eq(t.origin.as_slice(), base.origin.as_slice()) {
                return None;
            }
            if count_byte(t.path.as_slice(), SLASH) <= count_byte(base.path.as_slice(), SLASH) {
                return None;
            }
            let deb: Vec<u8> = vec![46u8, 100u8, 101u8, 98u8];
            let ddeb: Vec<u8> = vec![46u8, 100u8, 100u8, 101u8, 98u8];
            let slash: Vec<u8> = vec![SLASH];
            proof {
                assert(deb@ =~= deb_suffix());
                assert(ddeb@ =~= ddeb_suffix());
                assert(slash@ =~= seq![SLASH]);
            }
            if has_suffix(t.serialized.as_slice(), deb.as_slice()) || has_suffix(
                t.serialized.as_slice(),
                ddeb.as_slice(),
            ) {
                match package_segment(t.path.as_slice()) {
                    Some(name) => Some(
                        Link::Artifact { package: name, download_url: t.serialized },
                    ),
                    None => None,
                }
            } else if has_suffix(t.serialized.as_slice(), slash.as_slice()) {
                Some(Link::Listing { url: t.serialized })
            } else {
                None
            }
        },
    }
}

/// Find and classify every link of a fetched page: `None` exactly when the
/// page's own URL does not parse; otherwise all kept links in page order.
pub fn find_links(base_url: &[u8], body: &[u8]) -> (r: Option<Vec<Link>>)
    ensures
        r is Some <==> parse_of(base_url@) is Some,
        match r {
            Some(l) => link_views(l@) == page_links(base_url@, body@),
            None => true,
        },
{
    let base = match parse_url(base_url) {
        Some(b) => b,
        None => {
            return None;
        },
    };
    let ghost bm = base@;
    let hrefs = extract_hrefs(body);
    let ghost targets = views_of(hrefs@);
    let mut out: Vec<Link> = Vec::new();
    proof {
        assert(targets.take(0) =~= Seq::<Seq<u8>>::empty());
        assert(link_views(out@) =~= Seq::<LinkModel>::empty());
    }
    let n = hrefs.len();
    let mut i: usize = 0;
    while i < n
        invariant
            0 <= i <= n,
            n == hrefs@.len(),
            targets == views_of(hrefs@),
            bm == base@,
            parse_of(base_url@) == Some(bm),
            link_views(out@) == classify_all(bm, targets.take(i as int)),
        decreases n - i,
    {
        proof {
            assert(targets.take(i + 1).drop_last() =~= targets.take(i as int));
            assert(targets.take(i + 1).last() == targets[i as int]);
            assert(targets[i as int] == hrefs@[i as int]@);
        }
        let ghost before = link_views(out@);
        match classify_target(&base, hrefs[i].as_slice()) {
            Some(l) => {
                out.push(l);
                proof {
                    assert(link_views(out@) =~= before.push(out@.last()@));
                }
            },
            None => {},
        }
        i = i + 1;
    }
    proof {
        assert(targets.take(n as int) =~= targets);
    }
    Some(out)
}

/// Law: a URL never names both an artifact and a listing — an artifact URL
/// ends in `b`, a listing URL in `/`.
pub proof fn lemma_no_url_both_listing_and_artifact(s: Seq<u8>)
    ensures
        !(is_artifact_url(s) && is_listing_url(s)),
{
    if is_artifact_url(s) && is_listing_url(s) {
        if ends_with(s, deb_suffix()) {
            assert(s.subrange(s.len() - 4, s.len() as int)[3] == deb_suffix()[3]);
        } else {
            assert(s.subrange(s.len() - 5, s.len() as int)[4] == ddeb_suffix()[4]);
        }
        assert(s.subrange(s.len() - 1, s.len() as int)[0] == seq![SLASH][0]);
        assert(false);
    }
}

/// Law: the classifier never classifies one resolved URL both ways — a kept
/// `Artifact` is an artifact URL and not a listing URL, a kept `Listing` is
/// not an artifact URL, and either way the kept URL is the resolved
/// serialization itself.
pub proof fn lemma_classification_exclusive(base: UrlModel, t: UrlModel)
    ensures
        match classify_resolved(base, t) {
            Some(LinkModel::Listing { url }) => url == t.serialized && !is_artifact_url(
                t.serialized,
            ) && is_listing_url(t.serialized),
            Some(LinkModel::Artifact { package, download_url }) => download_url == t.serialized
                && is_artifact_url(t.serialized) && !is_listing_url(t.serialized),
            None => true,
        },
{
    lemma_no_url_both_listing_and_artifact(t.serialized);
}

/// Law: every link among a page's classified links is the classification of
/// one of that page's anchor targets — nothing else is ever emitted.
/// Together with `lemma_kept_links_descend` this covers a whole page: each
/// of its extracted links resolved onto the page's own origin with a path at
/// least as deep, or was discarded.
pub proof fn lemma_page_links_are_kept_targets(base: UrlModel, targets: Seq<Seq<u8>>, k: int)
    requires
        0 <= k < classify_all(base, targets).len(),
    ensures
        exists|t: Seq<u8>|
            targets.contains(t) && classify_of(base, t) == Some(classify_all(base, targets)[k]),
    decreases targets.len(),
{
    let rest = classify_all(base, targets.drop_last());
    if k < rest.len() {
        lemma_page_links_are_kept_targets(base, targets.drop_last(), k);
        let t = choose|t: Seq<u8>|
            targets.drop_last().contains(t) && classify_of(base, t) == Some(rest[k]);
        let w = choose|w: int| 0 <= w < targets.drop_last().len() && targets.drop_last()[w] == t;
        assert(targets[w] == t);
    } else {
        let t = targets.last();
        assert(targets[targets.len() - 1] == t);
        assert(classify_of(base, t) == Some(classify_all(base, targets)[k]));
    }
}

/// Law: every kept link comes from a target that resolved against the page's
/// URL onto the page's own origin, without a query string, and with a path
/// holding strictly more `/` separators than the page's own path (so in
/// particular at least as many) — anything else, a parent-escaping or
/// same-depth sibling link included, is discarded.
pub proof fn lemma_kept_links_descend(base: UrlModel, target: Seq<u8>)
    ensures
        classify_of(base, target) is Some ==> match join_of(base.serialized, target) {
            Some(t) => {
                &&& base.origin_is_tuple
                &&& t.origin_is_tuple
                &&& t.origin == base.origin
                &&& !t.has_query
                &&& count_byte_spec(t.path, SLASH) > count_byte_spec(base.path, SLASH)
            },
            None => false,
        },
{
}

} // verus!

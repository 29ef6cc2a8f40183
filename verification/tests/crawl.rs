//! Link discovery and classification, frontier scheduling, and quiescence.
use debscraper::frontier::{Frontier, PackageMap};
use debscraper::links::{classify_target, find_links, Link};
use debscraper::pool::PoolState;
use debscraper::scan::extract_hrefs;
use debscraper::urls::UrlParts;

fn vecs(captures: &[&str]) -> Vec<Vec<u8>> {
    captures.iter().map(|s| s.as_bytes().to_vec()).collect()
}

#[test]
fn scanner_finds_simple_href() {
    let body = b"<a href=\"pkgs/\">pkgs</a>";
    let hrefs = extract_hrefs(body);
    assert_eq!(hrefs, vecs(&["pkgs/"]));
}

#[test]
fn scanner_is_case_insensitive() {
    let body = b"<A HREF=\"a/\"> <a HrEf=\"b/\">";
    let hrefs = extract_hrefs(body);
    assert_eq!(hrefs, vecs(&["a/", "b/"]));
}

#[test]
fn scanner_respects_word_boundary() {
    let body = b"<a xhref=\"skip/\"> <a href=\"keep/\">";
    let hrefs = extract_hrefs(body);
    assert_eq!(hrefs, vecs(&["keep/"]));
}

#[test]
fn scanner_skips_empty_capture() {
    let body = b"<a href=\"\"> <a href=\"x\">";
    let hrefs = extract_hrefs(body);
    assert_eq!(hrefs, vecs(&["x"]));
}

#[test]
fn scanner_runs_to_end_without_closing_quote() {
    let body = b"<a href=\"unterminated";
    let hrefs = extract_hrefs(body);
    assert_eq!(hrefs, vecs(&["unterminated"]));
}

#[test]
fn seed_page_scenario_yields_one_listing_one_artifact() {
    let base = b"http://archive.example.org/ubuntu/pool/";
    let body = b"<a href=\"pkgs/\"> <a href=\"pkgs/a.deb\"> <a href=\"../escape/\">";
    let links = find_links(base, body).expect("base URL parses");
    assert_eq!(links.len(), 2);
    match &links[0] {
        Link::Listing { url } => {
            assert_eq!(url, &b"http://archive.example.org/ubuntu/pool/pkgs/".to_vec());
        }
        _ => panic!("first link should be the listing"),
    }
    match &links[1] {
        Link::Artifact { package, download_url } => {
            assert_eq!(package, &b"pkgs".to_vec());
            assert_eq!(
                download_url,
                &b"http://archive.example.org/ubuntu/pool/pkgs/a.deb".to_vec()
            );
        }
        _ => panic!("second link should be the artifact"),
    }
}

#[test]
fn cross_origin_and_query_links_are_discarded() {
    let base = b"http://archive.example.org/pool/";
    let body = b"<a href=\"http://elsewhere.example.net/pool/deeper/\">\
                 <a href=\"deeper/?C=N;O=D\">\
                 <a href=\"deeper/\">";
    let links = find_links(base, body).expect("base URL parses");
    assert_eq!(links.len(), 1);
    match &links[0] {
        Link::Listing { url } => {
            assert_eq!(url, &b"http://archive.example.org/pool/deeper/".to_vec());
        }
        _ => panic!("kept link should be the same-origin listing"),
    }
}

#[test]
fn ddeb_is_an_artifact_and_plain_files_are_discarded() {
    let base = UrlParts {
        serialized: b"http://archive.example.org/pool/p/".to_vec(),
        origin_is_tuple: true,
        origin: b"http://archive.example.org".to_vec(),
        path: b"/pool/p/".to_vec(),
        has_query: false,
    };
    let ddeb = classify_target(&base, b"glibc/glibc-dbg.ddeb");
    match ddeb {
        Some(Link::Artifact { package, .. }) => assert_eq!(package, b"glibc".to_vec()),
        _ => panic!("ddeb should classify as an artifact"),
    }
    assert!(classify_target(&base, b"deeper/README.txt").is_none());
}

#[test]
fn same_depth_sibling_is_discarded() {
    // the crawl is a strict descent: neither a parent-escaping link that
    // lands at the page's own depth nor a same-depth sibling is followed
    let base = b"http://archive.example.org/pool/";
    let body = b"<a href=\"../other/\"> <a href=\"/pool2/\"> <a href=\"down/\">";
    let links = find_links(base, body).expect("base URL parses");
    assert_eq!(links.len(), 1);
    match &links[0] {
        Link::Listing { url } => {
            assert_eq!(url, &b"http://archive.example.org/pool/down/".to_vec());
        }
        _ => panic!("only the descending listing is kept"),
    }
}

#[test]
fn default_port_is_the_same_origin() {
    let base = b"http://archive.example.org/pool/";
    let body = b"<a href=\"http://archive.example.org:80/pool/deeper/\">\
                 <a href=\"https://archive.example.org/pool/secure/\">";
    let links = find_links(base, body).expect("base URL parses");
    // an explicit default port is the same origin; another scheme is not
    assert_eq!(links.len(), 1);
    match &links[0] {
        Link::Listing { url } => {
            assert_eq!(url, &b"http://archive.example.org/pool/deeper/".to_vec());
        }
        _ => panic!("kept link should be the default-port listing"),
    }
}

#[test]
fn non_utf8_target_is_discarded() {
    let base = b"http://archive.example.org/pool/";
    let mut body = b"<a href=\"".to_vec();
    body.extend_from_slice(&[0xffu8, 0xfe, 0xfd]);
    body.extend_from_slice(b"\"> <a href=\"ok/\">");
    let links = find_links(base, &body).expect("base URL parses");
    assert_eq!(links.len(), 1);
}

#[test]
fn unparseable_base_url_is_reported() {
    assert!(find_links(b"not a url", b"<a href=\"x/\">").is_none());
}

#[test]
fn frontier_dispatch_respects_capacity_and_detects_quiescence() {
    let seeds = vec![b"http://h/a/".to_vec(), b"http://h/b/".to_vec()];
    let mut f = Frontier::new(1, seeds);
    assert!(!f.is_quiescent());
    let first = f.try_dispatch().expect("one slot free");
    assert_eq!(first, b"http://h/b/".to_vec());
    // capacity 1: a second dispatch must wait even though work is pending
    assert!(f.try_dispatch().is_none());
    // a task finishes and found one deeper listing
    f.complete(vec![Link::Listing { url: b"http://h/b/c/".to_vec() }]);
    assert!(!f.is_quiescent());
    let second = f.try_dispatch().expect("slot free again");
    assert_eq!(second, b"http://h/b/c/".to_vec());
    f.complete(vec![]);
    let third = f.try_dispatch().expect("seed still pending");
    assert_eq!(third, b"http://h/a/".to_vec());
    // queue empty but a task is still in flight: not quiescent
    assert!(!f.is_quiescent());
    f.complete(vec![]);
    assert!(f.is_quiescent());
    let packages = f.finish();
    assert_eq!(packages.package_count(), 0);
}

#[test]
fn frontier_aggregates_artifacts_per_package() {
    let mut f = Frontier::new(4, vec![b"http://h/p/".to_vec()]);
    f.try_dispatch().expect("dispatched");
    f.complete(vec![
        Link::Artifact {
            package: b"glibc".to_vec(),
            download_url: b"http://h/p/glibc/a.deb".to_vec(),
        },
        Link::Artifact {
            package: b"zlib".to_vec(),
            download_url: b"http://h/p/zlib/z.deb".to_vec(),
        },
        Link::Artifact {
            package: b"glibc".to_vec(),
            download_url: b"http://h/p/glibc/b.deb".to_vec(),
        },
    ]);
    assert!(f.is_quiescent());
    let packages = f.finish();
    assert_eq!(packages.package_count(), 2);
    assert_eq!(packages.name_at(0), &b"glibc".to_vec());
    assert_eq!(
        packages.urls_at(0),
        &vec![b"http://h/p/glibc/a.deb".to_vec(), b"http://h/p/glibc/b.deb".to_vec()]
    );
    assert_eq!(packages.name_at(1), &b"zlib".to_vec());
    assert_eq!(packages.urls_at(1), &vec![b"http://h/p/zlib/z.deb".to_vec()]);
}

#[test]
fn package_map_appends_to_existing_entry() {
    let mut m = PackageMap::new();
    m.merge_insert(b"a".to_vec(), b"u1".to_vec());
    m.merge_insert(b"b".to_vec(), b"u2".to_vec());
    m.merge_insert(b"a".to_vec(), b"u3".to_vec());
    assert_eq!(m.package_count(), 2);
    assert_eq!(m.urls_at(0), &vec![b"u1".to_vec(), b"u3".to_vec()]);
    assert_eq!(m.urls_at(1), &vec![b"u2".to_vec()]);
}

#[test]
fn pool_admissions_never_exceed_capacity() {
    let mut p = PoolState::new(2);
    assert!(p.is_idle());
    assert_eq!(p.created_count(), 0);
    assert!(p.try_acquire());
    assert!(p.try_acquire());
    assert!(!p.try_acquire());
    assert!(!p.is_idle());
    assert_eq!(p.created_count(), 2);
    p.release();
    assert!(!p.is_idle());
    // the released client is reused: no third client ever comes into being
    assert!(p.try_acquire());
    assert_eq!(p.created_count(), 2);
    p.release();
    p.release();
    assert!(p.is_idle());
    assert_eq!(p.created_count(), 2);
}

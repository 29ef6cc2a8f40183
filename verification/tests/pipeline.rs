//! Cache keys, download planning, crash-safe marker ordering, and the
//! resilient-fetch retry policy.
use debscraper::fetch::RetryPolicy;
use debscraper::is_retryable;
use debscraper::pipeline::{
    bundle_name, cache_key, contains_bytes, hex_encode, is_inner_tarball, plan_fetches,
    PackageRun,
};
use debscraper::TaskErrorKind;

#[test]
fn hex_encoding_is_lowercase_and_exact() {
    assert_eq!(hex_encode(&[0xab, 0x00, 0x9f]), b"ab009f".to_vec());
    assert_eq!(hex_encode(&[]), Vec::<u8>::new());
}

#[test]
fn cache_key_is_the_hex_sha1_of_the_url() {
    // SHA-1("abc") is the classic known digest.
    assert_eq!(
        cache_key(b"abc"),
        b"a9993e364706816aba3e25717850c26c9cd0d89d".to_vec()
    );
    assert_eq!(
        cache_key(b"http://h/p/a.deb").len(),
        40
    );
}

#[test]
fn plan_skips_cached_urls_and_keeps_the_rest() {
    let urls = vec![b"http://h/p/a.deb".to_vec(), b"http://h/p/b.deb".to_vec()];
    let cached = vec![cache_key(b"http://h/p/a.deb")];
    let plan = plan_fetches(&urls, &cached);
    assert_eq!(plan, vec![b"http://h/p/b.deb".to_vec()]);
}

#[test]
fn fully_cached_package_plans_zero_fetches() {
    let urls = vec![b"u1".to_vec(), b"u2".to_vec()];
    let cached = vec![cache_key(b"u1"), cache_key(b"u2"), b"unrelated".to_vec()];
    assert!(plan_fetches(&urls, &cached).is_empty());
}

#[test]
fn empty_cache_plans_every_url_in_order() {
    let urls = vec![b"u1".to_vec(), b"u2".to_vec(), b"u1".to_vec()];
    let plan = plan_fetches(&urls, &Vec::new());
    assert_eq!(plan, urls);
}

#[test]
fn partially_cached_package_marks_only_the_fetched_url() {
    // A package with two download URLs, one already cached: exactly one
    // fetch is planned, the sorter still runs once for the package, and a
    // marker is written only for the newly fetched URL.
    let urls = vec![b"http://h/p/a.deb".to_vec(), b"http://h/p/b.deb".to_vec()];
    let cached = vec![cache_key(b"http://h/p/a.deb")];
    let plan = plan_fetches(&urls, &cached);
    assert_eq!(plan.len(), 1);
    let mut run = PackageRun::new();
    for url in &plan {
        run.record_unpacked(cache_key(url));
    }
    run.sorter_finished();
    let marks = run.keys_to_mark();
    assert_eq!(marks, &vec![cache_key(b"http://h/p/b.deb")]);
}

#[test]
fn markers_cover_every_fetched_url_after_the_sorter() {
    let mut run = PackageRun::new();
    run.record_unpacked(cache_key(b"u1"));
    run.record_unpacked(cache_key(b"u2"));
    run.sorter_finished();
    assert_eq!(
        run.keys_to_mark(),
        &vec![cache_key(b"u1"), cache_key(b"u2")]
    );
}

#[test]
fn contains_bytes_finds_exact_entries_only() {
    let set = vec![b"one".to_vec(), b"two".to_vec()];
    assert!(contains_bytes(&set, b"one"));
    assert!(contains_bytes(&set, b"two"));
    assert!(!contains_bytes(&set, b"three"));
    assert!(!contains_bytes(&set, b"on"));
}

#[test]
fn bundle_identifier_joins_package_and_suffix() {
    assert_eq!(bundle_name(b"glibc", b"2024-05-01"), b"glibc-2024-05-01".to_vec());
}

#[test]
fn inner_tarball_names_are_the_three_known_compressions() {
    assert!(is_inner_tarball(b"data.tar.xz"));
    assert!(is_inner_tarball(b"data.tar.gz"));
    assert!(is_inner_tarball(b"data.tar.bz2"));
    assert!(!is_inner_tarball(b"data.tar.zst"));
    assert!(!is_inner_tarball(b"control.tar.gz"));
}

#[test]
fn retry_policy_admits_six_attempts_with_fixed_backoff() {
    let mut p = RetryPolicy::new();
    let mut attempts = 0;
    while p.try_attempt() {
        attempts += 1;
        assert_eq!(p.backoff_ms(), 500);
    }
    assert_eq!(attempts, 6);
    assert!(!p.try_attempt());
}

#[test]
fn only_transport_failures_are_retryable() {
    assert!(is_retryable(&TaskErrorKind::TransientNetwork));
    assert!(!is_retryable(&TaskErrorKind::ParseAnomaly));
    assert!(!is_retryable(&TaskErrorKind::SubprocessFailure));
    assert!(!is_retryable(&TaskErrorKind::FatalSetup));
}

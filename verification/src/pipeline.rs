//! The download-and-assembly pipeline plan for one package.
//!
//! Every download URL has a cache key: the lowercase hex SHA-1 digest of the
//! URL string. A key's marker file under the cache directory means "already
//! fully processed", so planning a package means keeping exactly the URLs
//! whose key is absent. The crash-safety discipline — cache entries are
//! written only after the sorter invocation has returned — is enforced by
//! `PackageRun`, which refuses to hand out the keys to mark before the sorter
//! is recorded as done.
use vstd::prelude::*;

use crate::scan::views_of;
use crate::text::bytes_eq;

verus! {

/// What SHA-1 makes of a byte string. The algorithm is far too large to
/// restate here and is a pure function of its input, so its result is named.
pub uninterp spec fn sha1_of(data: Seq<u8>) -> Seq<u8>;

/// Relies on `sha1::Sha1::from` / `Sha1::digest` / `Digest::bytes`: the
/// digest depends on the input bytes alone and is 20 bytes long.
#[verifier::external_body]
fn sha1_digest(data: &[u8]) -> (r: Vec<u8>)
    ensures
        r@ == sha1_of(data@),
        r@.len() == 20,
{
    sha1::Sha1::from(data).digest().bytes().to_vec()
}

/// The lowercase hex digit of a nibble.
pub open spec fn hex_digit(n: u8) -> u8
    recommends
        n < 16,
{
    if n < 10 {
        (48 + n) as u8
    } else {
        (87 + n) as u8
    }
}

/// Lowercase hex encoding: two digits for each byte, in order.
pub open spec fn hex_of(b: Seq<u8>) -> Seq<u8>
    decreases b.len(),
{
    if b.len() == 0 {
        Seq::empty()
    } else {
        hex_of(b.drop_last()) + seq![hex_digit(b.last() / 16), hex_digit(b.last() % 16)]
    }
}

/// Encode bytes as lowercase hex.
pub fn hex_encode(b: &[u8]) -> (r: Vec<u8>)
    ensures
        r@ == hex_of(b@),
{
    let mut out: Vec<u8> = Vec::new();
    proof {
        assert(b@.take(0) =~= Seq::<u8>::empty());
        assert(out@ =~= hex_of(b@.take(0)));
    }
    let n = b.len();
    let mut i: usize = 0;
    while i < n
        invariant
            0 <= i <= n,
            n == b@.len(),
            out@ == hex_of(b@.take(i as int)),
        decreases n - i,
    {
        proof {
            assert(b@.take(i + 1).drop_last() =~= b@.take(i as int));
            assert(b@.take(i + 1).last() == b@[i as int]);
        }
        let hi = b[i] / 16;
        let lo = b[i] % 16;
        out.push(if hi < 10 {
            48 + hi
        } else {
            87 + hi
        });
        out.push(if lo < 10 {
            48 + lo
        } else {
            87 + lo
        });
        i = i + 1;
    }
    proof {
        assert(b@.take(n as int) =~= b@);
    }
    out
}

/// The cache key of a download URL: the lowercase hex SHA-1 of its bytes.
pub open spec fn cache_key_of(url: Seq<u8>) -> Seq<u8> {
    hex_of(sha1_of(url))
}

/// Compute a download URL's cache key.
pub fn cache_key(url: &[u8]) -> (r: Vec<u8>)
    ensures
        r@ == cache_key_of(url@),
{
    let digest = sha1_digest(url);
    hex_encode(digest.as_slice())
}

/// Is `x` one of the byte strings in `set`?
pub fn contains_bytes(set: &Vec<Vec<u8>>, x: &[u8]) -> (r: bool)
    ensures
        r == views_of(set@).contains(x@),
{
    let n = set.len();
    let mut i: usize = 0;
    while i < n
        invariant
            0 <= i <= n,
            n == set@.len(),
            forall|j: int| 0 <= j < i ==> views_of(set@)[j] != x@,
        decreases n - i,
    {
        proof {
            assert(views_of(set@)[i as int] == set@[i as int]@);
        }
        if bytes_eq(set[i].as_slice(), x) {
            return true;
        }
        i = i + 1;
    }
    false
}

/// The URLs of a package that must still be fetched: those whose cache key
/// has no marker among `cached`, in input order.
pub open spec fn fetch_plan(urls: Seq<Seq<u8>>, cached: Seq<Seq<u8>>) -> Seq<Seq<u8>>
    decreases urls.len(),
{
    if urls.len() == 0 {
        Seq::empty()
    } else {
        let rest = fetch_plan(urls.drop_last(), cached);
        if cached.contains(cache_key_of(urls.last())) {
            rest
        } else {
            rest.push(urls.last())
        }
    }
}

/// Plan one package's downloads: keep exactly the URLs whose cache key is
/// not among the marker names in `cached`.
pub fn plan_fetches(urls: &Vec<Vec<u8>>, cached: &Vec<Vec<u8>>) -> (r: Vec<Vec<u8>>)
    ensures
        views_of(r@) == fetch_plan(views_of(urls@), views_of(cached@)),
{
    let ghost us = views_of(urls@);
    let mut out: Vec<Vec<u8>> = Vec::new();
    proof {
        assert(us.take(0) =~= Seq::<Seq<u8>>::empty());
        assert(views_of(out@) =~= fetch_plan(us.take(0), views_of(cached@)));
    }
    let n = urls.len();
    let mut i: usize = 0;
    while i < n
        invariant
            0 <= i <= n,
            n == urls@.len(),
            us == views_of(urls@),
            views_of(out@) == fetch_plan(us.take(i as int), views_of(cached@)),
        decreases n - i,
    {
        proof {
            assert(us.take(i + 1).drop_last() =~= us.take(i as int));
            assert(us.take(i + 1).last() == us[i as int]);
            assert(us[i as int] == urls@[i as int]@);
        }
        let key = cache_key(urls[i].as_slice());
        let ghost before = views_of(out@);
        if !contains_bytes(cached, key.as_slice()) {
            let u = crate::text::clone_bytes(&urls[i]);
            out.push(u);
            proof {
                assert(views_of(out@) =~= before.push(us[i as int]));
            }
        }
        i = i + 1;
    }
    proof {
        assert(us.take(n as int) =~= us);
    }
    out
}

/// Law: a URL whose cache key already has a marker is never in the fetch
/// plan — a completed artifact is fetched zero times on a re-run.
pub proof fn lemma_cached_url_not_fetched(urls: Seq<Seq<u8>>, cached: Seq<Seq<u8>>, u: Seq<u8>)
    requires
        cached.contains(cache_key_of(u)),
    ensures
        !fetch_plan(urls, cached).contains(u),
    decreases urls.len(),
{
    if urls.len() > 0 {
        lemma_cached_url_not_fetched(urls.drop_last(), cached, u);
        let rest = fetch_plan(urls.drop_last(), cached);
        if !cached.contains(cache_key_of(urls.last())) {
            assert(urls.last() != u);
            assert forall|k: int| 0 <= k < rest.push(urls.last()).len() implies rest.push(
                urls.last(),
            )[k] != u by {
                if k < rest.len() {
                    assert(!rest.contains(u));
                }
            }
        }
    }
}

/// Law: a URL without a cache marker is always in the fetch plan — skipping
/// happens for completed artifacts only.
pub proof fn lemma_uncached_url_fetched(urls: Seq<Seq<u8>>, cached: Seq<Seq<u8>>, i: int)
    requires
        0 <= i < urls.len(),
        !cached.contains(cache_key_of(urls[i])),
    ensures
        fetch_plan(urls, cached).contains(urls[i]),
    decreases urls.len(),
{
    let rest = fetch_plan(urls.drop_last(), cached);
    if i == urls.len() - 1 {
        assert(rest.push(urls.last())[rest.len() as int] == urls[i]);
    } else {
        lemma_uncached_url_fetched(urls.drop_last(), cached, i);
        if !cached.contains(cache_key_of(urls.last())) {
            let w = choose|k: int| 0 <= k < rest.len() && rest[k] == urls.drop_last()[i];
            assert(rest.push(urls.last())[w] == urls[i]);
        }
    }
}

/// Law: markers are written only for newly fetched URLs. Every URL in the
/// fetch plan — and a successful run marks exactly the planned URLs' cache
/// keys, `keys_to_mark` returning one key per recorded fetch — had no cache
/// marker before the run began.
pub proof fn lemma_markers_only_for_new_fetches(urls: Seq<Seq<u8>>, cached: Seq<Seq<u8>>, k: int)
    requires
        0 <= k < fetch_plan(urls, cached).len(),
    ensures
        !cached.contains(cache_key_of(fetch_plan(urls, cached)[k])),
    decreases urls.len(),
{
    if urls.len() > 0 {
        let rest = fetch_plan(urls.drop_last(), cached);
        if cached.contains(cache_key_of(urls.last())) {
            lemma_markers_only_for_new_fetches(urls.drop_last(), cached, k);
        } else if k < rest.len() {
            lemma_markers_only_for_new_fetches(urls.drop_last(), cached, k);
            assert(rest.push(urls.last())[k] == rest[k]);
        } else {
            assert(rest.push(urls.last())[k] == urls.last());
        }
    }
}

/// One package's run through the pipeline: fetched-and-unpacked artifacts
/// accumulate their cache keys, and those keys become eligible for marker
/// writing only once the sorter invocation is recorded as returned.
pub struct PackageRun {
    fetched_keys: Vec<Vec<u8>>,
    sorter_done: bool,
}

/// The cache keys a run may write markers for: none at all until the sorter
/// has returned, then exactly the keys fetched in this run.
pub open spec fn markable_keys(r: &PackageRun) -> Seq<Seq<u8>> {
    if r.sorter_done() {
        r.fetched_keys()
    } else {
        Seq::empty()
    }
}

impl PackageRun {
    pub closed spec fn fetched_keys(&self) -> Seq<Seq<u8>> {
        views_of(self.fetched_keys@)
    }

    pub closed spec fn sorter_done(&self) -> bool {
        self.sorter_done
    }

    /// A fresh run: nothing fetched, sorter not yet invoked.
    pub fn new() -> (r: PackageRun)
        ensures
            r.fetched_keys() == Seq::<Seq<u8>>::empty(),
            !r.sorter_done(),
    {
        let r = PackageRun { fetched_keys: Vec::new(), sorter_done: false };
        proof {
            assert(r.fetched_keys() =~= Seq::<Seq<u8>>::empty());
        }
        r
    }

    /// Record one artifact as fetched and unpacked: its key becomes part of
    /// the run, but no marker may be written for it yet.
    pub fn record_unpacked(&mut self, key: Vec<u8>)
        requires
            !old(self).sorter_done(),
        ensures
            !final(self).sorter_done(),
            final(self).fetched_keys() == old(self).fetched_keys().push(key@),
    {
        let ghost kv = key@;
        self.fetched_keys.push(key);
        proof {
            assert(self.fetched_keys() =~= old(self).fetched_keys().push(kv));
        }
    }

    /// Record that the sorter invocation over this run's extracted trees has
    /// returned. Only this unlocks marker writing.
    pub fn sorter_finished(&mut self)
        requires
            !old(self).sorter_done(),
        ensures
            final(self).sorter_done(),
            final(self).fetched_keys() == old(self).fetched_keys(),
    {
        self.sorter_done = true;
    }

    /// Has the sorter invocation of this run returned?
    pub fn is_sorted(&self) -> (r: bool)
        ensures
            r == self.sorter_done(),
    {
        self.sorter_done
    }

    /// The keys whose zero-byte marker files may now be written: exactly the
    /// artifacts fetched in this run, and only after the sorter returned.
    pub fn keys_to_mark(&self) -> (r: &Vec<Vec<u8>>)
        requires
            self.sorter_done(),
        ensures
            views_of(r@) == self.fetched_keys(),
            views_of(r@) == markable_keys(self),
    {
        &self.fetched_keys
    }
}

/// Law: before the sorter invocation has returned, no cache key of the run
/// is eligible for marker writing — an interruption after fetch and unpack
/// but before the sorter leaves no cache entry behind, so a re-run processes
/// the whole package again.
pub proof fn lemma_no_markers_before_sorter(r: &PackageRun)
    requires
        !r.sorter_done(),
    ensures
        markable_keys(r) == Seq::<Seq<u8>>::empty(),
{
}

/// The bundle identifier handed to the sorter: `<package>-<suffix>`.
pub open spec fn bundle_name_of(id: Seq<u8>, suffix: Seq<u8>) -> Seq<u8> {
    id + seq![45u8] + suffix
}

/// Join a package name and a run suffix into the sorter's bundle identifier.
pub fn bundle_name(id: &[u8], suffix: &[u8]) -> (r: Vec<u8>)
    ensures
        r@ == bundle_name_of(id@, suffix@),
{
    let mut out = vstd::slice::slice_to_vec(id);
    out.push(45);
    out.extend_from_slice(suffix);
    proof {
        assert(out@ =~= bundle_name_of(id@, suffix@));
    }
    out
}

/// The name of the inner data tarball of a Debian archive, in one of the
/// recognized compressions: `data.tar.xz`.
pub open spec fn data_tar_xz() -> Seq<u8> {
    seq![100u8, 97u8, 116u8, 97u8, 46u8, 116u8, 97u8, 114u8, 46u8, 120u8, 122u8]
}

/// `data.tar.gz`.
pub open spec fn data_tar_gz() -> Seq<u8> {
    seq![100u8, 97u8, 116u8, 97u8, 46u8, 116u8, 97u8, 114u8, 46u8, 103u8, 122u8]
}

/// `data.tar.bz2`.
pub open spec fn data_tar_bz2() -> Seq<u8> {
    seq![100u8, 97u8, 116u8, 97u8, 46u8, 116u8, 97u8, 114u8, 46u8, 98u8, 122u8, 50u8]
}

/// A file name the unpack stage recognizes as the inner data tarball.
pub open spec fn is_inner_tarball_name(name: Seq<u8>) -> bool {
    name == data_tar_xz() || name == data_tar_gz() || name == data_tar_bz2()
}

/// Is this directory entry the archive's inner data tarball?
pub fn is_inner_tarball(name: &[u8]) -> (r: bool)
    ensures
        r == is_inner_tarball_name(name@),
{
    let xz: Vec<u8> = vec![100u8, 97u8, 116u8, 97u8, 46u8, 116u8, 97u8, 114u8, 46u8, 120u8, 122u8];
    let gz: Vec<u8> = vec![100u8, 97u8, 116u8, 97u8, 46u8, 116u8, 97u8, 114u8, 46u8, 103u8, 122u8];
    let bz2: Vec<u8> = vec![
        100u8,
        97u8,
        116u8,
        97u8,
        46u8,
        116u8,
        97u8,
        114u8,
        46u8,
        98u8,
        122u8,
        50u8,
    ];
    proof {
        assert(xz@ =~= data_tar_xz());
        assert(gz@ =~= data_tar_gz());
        assert(bz2@ =~= data_tar_bz2());
    }
    bytes_eq(name, xz.as_slice()) || bytes_eq(name, gz.as_slice()) || bytes_eq(
        name,
        bz2.as_slice(),
    )
}

} // verus!

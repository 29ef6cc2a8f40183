//! The crawl frontier and the package aggregator.
//!
//! The frontier holds the pending listing URLs and the count of discovery
//! tasks currently in flight, dispatches work only while the concurrency
//! budget allows it, folds every completed task's links back in (listings are
//! re-enqueued, artifacts are merged into the package map), and reports
//! quiescence only when the queue is empty and no task is outstanding.
use vstd::prelude::*;

use crate::links::{Link, LinkModel};
use crate::text::{bytes_eq, clone_bytes};

verus! {

/// Mathematical image of one aggregated package: its name and the list of
/// download URLs discovered for it, in discovery order.
pub ghost struct PackageModel {
    pub name: Seq<u8>,
    pub urls: Seq<Seq<u8>>,
}

struct PackageEntry {
    name: Vec<u8>,
    urls: Vec<Vec<u8>>,
}

impl View for PackageEntry {
    type V = PackageModel;

    closed spec fn view(&self) -> PackageModel {
        PackageModel { name: self.name@, urls: self.urls@.map_values(|u: Vec<u8>| u@) }
    }
}

/// Index of the first entry named `name`, or `-1` if there is none.
pub open spec fn find_package(m: Seq<PackageModel>, name: Seq<u8>) -> int
    decreases m.len(),
{
    if m.len() == 0 {
        -1
    } else if m[0].name == name {
        0
    } else {
        let r = find_package(m.drop_first(), name);
        if r == -1 {
            -1
        } else {
            r + 1
        }
    }
}

/// No two entries carry the same package name.
pub open spec fn names_distinct(m: Seq<PackageModel>) -> bool {
    forall|i: int, j: int| 0 <= i < j < m.len() ==> m[i].name != m[j].name
}

/// Merge-insert of one discovered artifact: append to the package's URL list
/// when the package already has an entry, otherwise create a new
/// single-element entry at the end.
pub open spec fn insert_artifact(m: Seq<PackageModel>, name: Seq<u8>, url: Seq<u8>) -> Seq<
    PackageModel,
> {
    let i = find_package(m, name);
    if i == -1 {
        m.push(PackageModel { name, urls: seq![url] })
    } else {
        m.update(i, PackageModel { name: m[i].name, urls: m[i].urls.push(url) })
    }
}

pub proof fn lemma_find_package(m: Seq<PackageModel>, name: Seq<u8>)
    ensures
        -1 <= find_package(m, name) < m.len(),
        find_package(m, name) >= 0 ==> m[find_package(m, name)].name == name,
        forall|j: int|
            0 <= j < m.len() && (find_package(m, name) == -1 || j < find_package(m, name))
                ==> m[j].name != name,
    decreases m.len(),
{
    if m.len() > 0 && m[0].name != name {
        lemma_find_package(m.drop_first(), name);
        assert forall|j: int|
            0 <= j < m.len() && (find_package(m, name) == -1 || j < find_package(m, name))
                implies m[j].name != name by {
            if j > 0 {
                assert(m.drop_first()[j - 1] == m[j]);
            }
        }
    }
}

pub proof fn lemma_insert_preserves_distinct(m: Seq<PackageModel>, name: Seq<u8>, url: Seq<u8>)
    requires
        names_distinct(m),
    ensures
        names_distinct(insert_artifact(m, name, url)),
{
    lemma_find_package(m, name);
}

/// Law: a merge-insert never removes anything — every existing package keeps
/// its position and its name, its URL list only grows (it stays a prefix of
/// the new list), and the map itself never shrinks.
pub proof fn lemma_package_lists_only_grow(m: Seq<PackageModel>, name: Seq<u8>, url: Seq<u8>)
    ensures
        m.len() <= insert_artifact(m, name, url).len(),
        forall|k: int|
            0 <= k < m.len() ==> {
                &&& #[trigger] insert_artifact(m, name, url)[k].name == m[k].name
                &&& m[k].urls.is_prefix_of(insert_artifact(m, name, url)[k].urls)
            },
{
    lemma_find_package(m, name);
    let m2 = insert_artifact(m, name, url);
    assert forall|k: int| 0 <= k < m.len() implies #[trigger] m2[k].name == m[k].name && m[
        k
    ].urls.is_prefix_of(m2[k].urls) by {
        let i = find_package(m, name);
        if 0 <= i && k == i {
            assert(m2[k].urls =~= m[k].urls + seq![url]);
            assert(m[k].urls.is_prefix_of(m2[k].urls));
        } else {
            assert(m2[k] == m[k]);
            assert(m[k].urls.is_prefix_of(m[k].urls));
        }
    }
}

/// Law: folding a completed task's links in only extends the aggregate
/// state — every already-known package keeps its name and its URLs (as a
/// prefix), and the already-pending URLs stay queued in front.
pub proof fn lemma_apply_links_only_grows(
    m: Seq<PackageModel>,
    pending: Seq<Seq<u8>>,
    links: Seq<LinkModel>,
)
    ensures
        m.len() <= apply_links(m, pending, links).0.len(),
        pending.is_prefix_of(apply_links(m, pending, links).1),
        forall|k: int|
            0 <= k < m.len() ==> {
                &&& #[trigger] apply_links(m, pending, links).0[k].name == m[k].name
                &&& m[k].urls.is_prefix_of(apply_links(m, pending, links).0[k].urls)
            },
    decreases links.len(),
{
    if links.len() == 0 {
        assert(pending.is_prefix_of(pending));
    } else {
        lemma_apply_links_only_grows(m, pending, links.drop_last());
        let (m1, p1) = apply_links(m, pending, links.drop_last());
        match links.last() {
            LinkModel::Listing { url } => {
                assert(p1.is_prefix_of(p1.push(url)));
                crate::text::lemma_prefix_transitive(pending, p1, p1.push(url));
            },
            LinkModel::Artifact { package, download_url } => {
                lemma_package_lists_only_grow(m1, package, download_url);
                let m2 = insert_artifact(m1, package, download_url);
                assert forall|k: int| 0 <= k < m.len() implies #[trigger] m2[k].name == m[k].name
                    && m[k].urls.is_prefix_of(m2[k].urls) by {
                    assert(m1[k].name == m[k].name && m[k].urls.is_prefix_of(m1[k].urls));
                    assert(m2[k].name == m1[k].name && m1[k].urls.is_prefix_of(m2[k].urls));
                    crate::text::lemma_prefix_transitive(m[k].urls, m1[k].urls, m2[k].urls);
                }
            },
        }
    }
}

/// The shared package map: package name to the ordered list of its download
/// URLs. URLs are appended as they are discovered and never deduplicated at
/// this layer.
pub struct PackageMap {
    entries: Vec<PackageEntry>,
}

impl View for PackageMap {
    type V = Seq<PackageModel>;

    closed spec fn view(&self) -> Seq<PackageModel> {
        self.entries@.map_values(|e: PackageEntry| e@)
    }
}

impl PackageMap {
    pub open spec fn wf(&self) -> bool {
        names_distinct(self@)
    }

    pub fn new() -> (r: PackageMap)
        ensures
            r.wf(),
            r@ == Seq::<PackageModel>::empty(),
    {
        let r = PackageMap { entries: Vec::new() };
        proof {
            assert(r@ =~= Seq::<PackageModel>::empty());
        }
        r
    }

    /// How many distinct packages have been discovered so far.
    pub fn package_count(&self) -> (r: usize)
        ensures
            r == self@.len(),
    {
        self.entries.len()
    }

    /// Index of the entry named `name`, if the package already has one.
    fn position_of(&self, name: &[u8]) -> (r: Option<usize>)
        ensures
            match r {
                Some(i) => 0 <= i < self@.len() && find_package(self@, name@) == i,
                None => find_package(self@, name@) == -1,
            },
    {
        let n = self.entries.len();
        let mut i: usize = 0;
        while i < n
            invariant
                0 <= i <= n,
                n == self.entries.len(),
                forall|j: int| 0 <= j < i ==> self@[j].name != name@,
            decreases n - i,
        {
            proof {
                assert(self@[i as int] == self.entries@[i as int]@);
            }
            if bytes_eq(self.entries[i].name.as_slice(), name) {
                proof {
                    lemma_find_package(self@, name@);
                }
                return Some(i);
            }
            i = i + 1;
        }
        proof {
            lemma_find_package(self@, name@);
        }
        None
    }

    /// Merge one `(package name, download URL)` pair into the map.
    pub fn merge_insert(&mut self, name: Vec<u8>, url: Vec<u8>)
        requires
            old(self).wf(),
        ensures
            final(self).wf(),
            final(self)@ == insert_artifact(old(self)@, name@, url@),
    {
        proof {
            lemma_find_package(self@, name@);
            lemma_insert_preserves_distinct(self@, name@, url@);
        }
        let ghost e0 = self.entries@;
        let ghost m0 = self@;
        let ghost nm = name@;
        let ghost uu = url@;
        match self.position_of(name.as_slice()) {
            Some(i) => {
                let entry = &mut self.entries[i];
                entry.urls.push(url);
                proof {
                    assert(self.entries@[i as int].urls@.map_values(|u: Vec<u8>| u@) =~= e0[
                        i as int
                    ].urls@.map_values(|u: Vec<u8>| u@).push(uu));
                    assert forall|k: int| 0 <= k < self@.len() implies self@[k] == insert_artifact(
                        m0,
                        nm,
                        uu,
                    )[k] by {
                        assert(self@[k] == self.entries@[k]@);
                        if k != i {
                            assert(self.entries@[k] == e0[k]);
                        }
                    }
                    assert(self@ =~= insert_artifact(m0, nm, uu));
                }
            },
            None => {
                self.entries.push(PackageEntry { name, urls: vec![url] });
                proof {
                    assert(self.entries@.last()@.urls =~= seq![uu]);
                    assert forall|k: int|
                        0 <= k < self@.len() implies self@[k] == insert_artifact(m0, nm, uu)[k] by {
                        assert(self@[k] == self.entries@[k]@);
                        if k < m0.len() {
                            assert(self.entries@[k] == e0[k]);
                        }
                    }
                    assert(self@ =~= insert_artifact(m0, nm, uu));
                }
            },
        }
    }

    /// The name of the package at position `i`.
    pub fn name_at(&self, i: usize) -> (r: &Vec<u8>)
        requires
            i < self@.len(),
        ensures
            r@ == self@[i as int].name,
    {
        &self.entries[i].name
    }

    /// The download URLs of the package at position `i`, in discovery order.
    pub fn urls_at(&self, i: usize) -> (r: &Vec<Vec<u8>>)
        requires
            i < self@.len(),
        ensures
            r@.map_values(|u: Vec<u8>| u@) == self@[i as int].urls,
    {
        &self.entries[i].urls
    }
}

/// Fold a completed task's links into the aggregate state, in page order:
/// listings are appended to the pending queue, artifacts are merge-inserted
/// into the package map.
pub open spec fn apply_links(
    m: Seq<PackageModel>,
    pending: Seq<Seq<u8>>,
    links: Seq<LinkModel>,
) -> (Seq<PackageModel>, Seq<Seq<u8>>)
    decreases links.len(),
{
    if links.len() == 0 {
        (m, pending)
    } else {
        let (m1, p1) = apply_links(m, pending, links.drop_last());
        match links.last() {
            LinkModel::Listing { url } => (m1, p1.push(url)),
            LinkModel::Artifact { package, download_url } => (
                insert_artifact(m1, package, download_url),
                p1,
            ),
        }
    }
}

/// Law: the aggregate map stays well-formed under any completed task's
/// links - merge-inserting a batch never makes two entries share a name.
pub proof fn lemma_apply_links_distinct(
    m: Seq<PackageModel>,
    pending: Seq<Seq<u8>>,
    links: Seq<LinkModel>,
)
    requires
        names_distinct(m),
    ensures
        names_distinct(apply_links(m, pending, links).0),
    decreases links.len(),
{
    if links.len() > 0 {
        lemma_apply_links_distinct(m, pending, links.drop_last());
        match links.last() {
            LinkModel::Listing { url } => {},
            LinkModel::Artifact { package, download_url } => {
                lemma_insert_preserves_distinct(
                    apply_links(m, pending, links.drop_last()).0,
                    package,
                    download_url,
                );
            },
        }
    }
}

/// The crawl frontier: pending listing URLs, in-flight discovery tasks, and
/// the aggregate package map, all under one concurrency budget.
pub struct Frontier {
    pending: Vec<Vec<u8>>,
    outstanding: usize,
    capacity: usize,
    packages: PackageMap,
}

impl Frontier {
    pub closed spec fn pending(&self) -> Seq<Seq<u8>> {
        self.pending@.map_values(|u: Vec<u8>| u@)
    }

    pub closed spec fn outstanding(&self) -> usize {
        self.outstanding
    }

    pub closed spec fn capacity(&self) -> usize {
        self.capacity
    }

    pub closed spec fn packages(&self) -> Seq<PackageModel> {
        self.packages@
    }

    pub closed spec fn wf(&self) -> bool {
        &&& self.capacity >= 1
        &&& self.outstanding <= self.capacity
        &&& self.packages.wf()
    }

    /// Seed the frontier with the initial listing URLs.
    pub fn new(capacity: usize, seeds: Vec<Vec<u8>>) -> (r: Frontier)
        requires
            capacity >= 1,
        ensures
            r.wf(),
            r.capacity() == capacity,
            r.outstanding() == 0,
            r.pending() == seeds@.map_values(|u: Vec<u8>| u@),
            r.packages() == Seq::<PackageModel>::empty(),
    {
        Frontier { pending: seeds, outstanding: 0, capacity, packages: PackageMap::new() }
    }

    /// Take one pending URL for dispatch if the queue is non-empty and the
    /// concurrency budget allows another in-flight task. The returned URL's
    /// discovery task counts as outstanding until `complete` is called.
    pub fn try_dispatch(&mut self) -> (r: Option<Vec<u8>>)
        requires
            old(self).wf(),
        ensures
            final(self).wf(),
            final(self).capacity() == old(self).capacity(),
            final(self).packages() == old(self).packages(),
            match r {
                Some(url) => {
                    &&& old(self).pending().len() > 0
                    &&& old(self).outstanding() < old(self).capacity()
                    &&& url@ == old(self).pending().last()
                    &&& final(self).pending() == old(self).pending().drop_last()
                    &&& final(self).outstanding() == old(self).outstanding() + 1
                },
                None => {
                    &&& *final(self) == *old(self)
                    &&& (old(self).pending().len() == 0 || old(self).outstanding() == old(
                        self,
                    ).capacity())
                },
            },
    {
        if self.outstanding < self.capacity && self.pending.len() > 0 {
            let url = self.pending.pop().unwrap();
            self.outstanding = self.outstanding + 1;
            proof {
                assert(url@ == old(self).pending()[old(self).pending().len() - 1]);
                assert(self.pending() =~= old(self).pending().drop_last());
            }
            Some(url)
        } else {
            None
        }
    }

    /// Fold one completed discovery task back in: its slot is freed, the
    /// listings it found are enqueued, and its artifacts are merged into the
    /// package map. A failed task simply hands in an empty list.
    pub fn complete(&mut self, links: Vec<Link>)
        requires
            old(self).wf(),
            old(self).outstanding() > 0,
        ensures
            final(self).wf(),
            final(self).capacity() == old(self).capacity(),
            final(self).outstanding() == old(self).outstanding() - 1,
            (final(self).packages(), final(self).pending()) == apply_links(
                old(self).packages(),
                old(self).pending(),
                links@.map_values(|l: Link| l@),
            ),
    {
        let ghost m0 = self.packages();
        let ghost p0 = self.pending();
        let ghost lm = links@.map_values(|l: Link| l@);
        let ghost cap0 = self.capacity();
        self.outstanding = self.outstanding - 1;
        let ghost out1 = self.outstanding();
        let n = links.len();
        for i in 0..n
            invariant
                n == links.len(),
                lm == links@.map_values(|l: Link| l@),
                self.capacity() == cap0,
                self.outstanding() == out1,
                self.wf(),
                (self.packages(), self.pending()) == apply_links(m0, p0, lm.take(i as int)),
        {
            proof {
                assert(lm.take(i + 1).drop_last() =~= lm.take(i as int));
                assert(lm.take(i + 1).last() == lm[i as int]);
            }
            match &links[i] {
                Link::Listing { url } => {
                    let u = clone_bytes(url);
                    self.pending.push(u);
                    proof {
                        assert(self.pending() =~= apply_links(m0, p0, lm.take(i + 1)).1);
                    }
                },
                Link::Artifact { package, download_url } => {
                    let p = clone_bytes(package);
                    let d = clone_bytes(download_url);
                    self.packages.merge_insert(p, d);
                },
            }
        }
        proof {
            assert(lm.take(n as int) =~= lm);
        }
    }

    /// How many discovery tasks are currently in flight.
    pub fn in_flight(&self) -> (r: usize)
        ensures
            r == self.outstanding(),
    {
        self.outstanding
    }

    /// How many listing URLs are waiting to be dispatched.
    pub fn pending_count(&self) -> (r: usize)
        ensures
            r == self.pending().len(),
    {
        self.pending.len()
    }

    /// True quiescence: nothing is pending and no discovery task is in
    /// flight. Only then may the crawl terminate.
    pub fn is_quiescent(&self) -> (r: bool)
        ensures
            r == quiescent(self),
    {
        self.pending.len() == 0 && self.outstanding == 0
    }

    /// Finalize the crawl and hand the aggregated package map out. Demanding
    /// quiescence here is what makes the hand-off safe: no in-flight task can
    /// still be about to insert.
    pub fn finish(self) -> (r: PackageMap)
        requires
            self.wf(),
            self.pending().len() == 0,
            self.outstanding() == 0,
        ensures
            r.wf(),
            r@ == self.packages(),
    {
        self.packages
    }
}

/// True quiescence of the frontier: no pending URL and no discovery task in
/// flight.
pub open spec fn quiescent(f: &Frontier) -> bool {
    f.pending().len() == 0 && f.outstanding() == 0
}

/// Law: quiescence is never reported while any discovery task holds a pool
/// slot — a task counts as outstanding from its dispatch until `complete`
/// frees its slot, and a quiescent frontier has no outstanding task.
pub proof fn lemma_quiescent_frontier_holds_no_slots(f: &Frontier)
    ensures
        quiescent(f) ==> f.outstanding() == 0,
{
}

} // verus!

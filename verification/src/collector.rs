//! Diversity-aware top-K selection of scored documents.
//!
//! A [`BucketCollector`] ingests scored documents and keeps the best
//! `top_n + 1` of them by raw score in a double-ended priority queue.
//! [`BucketCollector::into_sorted_vec`] then emits up to `top_n` documents in
//! descending order; with `de_rank_similar` set, every emitted document
//! raises a taken-count for each of its three fingerprints (site, title,
//! URL), and each following pick maximises the demoted score
//! `raw * 84 / demotion_den(counts)` over what is left, so near-duplicates
//! sink below fresh hosts and pages.

use vstd::prelude::*;
use std::collections::HashMap;
use min_max_heap::MinMaxHeap;
use crate::score::MAX_TAKEN;
use crate::score::adjusted_ge;
use crate::score::adjusted_ge_exec;
use crate::score::demotion_den;
use crate::score::demotion_den_exec;
use crate::score::lemma_demotion_den_bounds;
use crate::pqueue::heap_entries;
use crate::pqueue::heap_len;
use crate::pqueue::heap_pop_max;
use crate::pqueue::heap_pop_min;
use crate::pqueue::heap_push;
use crate::pqueue::heap_with_capacity;
use crate::pqueue::pair_le;

verus! {

broadcast use vstd::std_specs::hash::group_hash_axioms,
    vstd::seq_lib::group_seq_properties,
    vstd::multiset::group_multiset_axioms,
    vstd::set::group_set_axioms;

/// Largest capacity a bucket collector accepts; keeps every taken-count
/// within [`MAX_TAKEN`], so the demotion arithmetic stays exact.
pub const MAX_TOP_N: usize = 100_000;

/// The three 128-bit fingerprints of a document, used for duplicate
/// detection on site, title and URL.
#[derive(Clone, Copy, Debug, PartialEq, Eq, Structural)]
pub struct Hashes {
    pub site: u128,
    pub title: u128,
    pub url: u128,
}

/// Address of a hit: segment ordinal plus segment-local document id.
#[derive(Clone, Copy, Debug, PartialEq, Eq, Structural)]
pub struct DocAddress {
    pub segment: u32,
    pub doc_id: u32,
}

/// Pointer to a ranked website, handed to downstream result enrichment.
#[derive(Clone, Copy, Debug, PartialEq, Eq, Structural)]
pub struct WebsitePointer {
    pub score: u64,
    pub hashes: Hashes,
    pub address: DocAddress,
}

/// A document that can flow through the bucket collector.
pub trait Doc: Sized {
    /// The raw score, in fixed-point units.
    spec fn score_spec(&self) -> u64;

    /// The document's fingerprints.
    spec fn hashes_spec(&self) -> Hashes;

    /// Returns the raw score.
    fn score(&self) -> (s: u64)
        ensures
            s == self.score_spec(),
    ;

    /// Returns the segment-local document id.
    fn id(&self) -> u32;

    /// Returns the fingerprints.
    fn hashes(&self) -> (h: Hashes)
        ensures
            h == self.hashes_spec(),
    ;
}

/// How often fingerprint `f` occurs among the three fingerprints of `h`.
pub open spec fn hash_hits(h: Hashes, f: u128) -> nat {
    (if h.site == f { 1nat } else { 0nat })
    + (if h.title == f { 1nat } else { 0nat })
    + (if h.url == f { 1nat } else { 0nat })
}

/// How often fingerprint `f` has been taken by the emitted documents.
pub open spec fn taken_count<T: Doc>(emitted: Seq<T>, f: u128) -> nat
    decreases emitted.len(),
{
    if emitted.len() == 0 {
        0nat
    } else {
        taken_count(emitted.drop_last(), f) + hash_hits(emitted.last().hashes_spec(), f)
    }
}

/// Exact demotion denominator of a document with fingerprints `h` after
/// `emitted` has been taken: its demoted score is `raw * 84 / hashes_den`.
pub open spec fn hashes_den<T: Doc>(h: Hashes, emitted: Seq<T>) -> int {
    demotion_den(
        taken_count(emitted, h.site) as int,
        taken_count(emitted, h.title) as int,
        taken_count(emitted, h.url) as int,
    )
}

/// Exact demotion denominator of document `d` itself.
pub open spec fn doc_den<T: Doc>(d: T, emitted: Seq<T>) -> int {
    hashes_den(d.hashes_spec(), emitted)
}

/// Each of the emitted documents holds three fingerprints, so no
/// taken-count can exceed three per emitted document.
pub proof fn lemma_taken_count_bound<T: Doc>(emitted: Seq<T>, f: u128)
    ensures
        taken_count(emitted, f) <= 3 * emitted.len(),
    decreases emitted.len(),
{
    if emitted.len() > 0 {
        lemma_taken_count_bound(emitted.drop_last(), f);
    }
}

/// Taken-counts per fingerprint of the documents emitted so far.
pub struct BucketCount {
    buckets: HashMap<u128, u64>,
}

impl BucketCount {
    /// The count recorded for fingerprint `f`.
    pub closed spec fn count(self, f: u128) -> nat {
        if self.buckets@.contains_key(f) {
            self.buckets@[f] as nat
        } else {
            0nat
        }
    }

    /// The counts are exactly those of the emitted sequence.
    pub open spec fn matches<T: Doc>(self, emitted: Seq<T>) -> bool {
        forall|f: u128| #[trigger] self.count(f) == taken_count(emitted, f)
    }

    /// An empty count table.
    pub fn new() -> (c: Self)
        ensures
            forall|f: u128| #[trigger] c.count(f) == 0,
    {
        BucketCount { buckets: HashMap::new() }
    }

    /// Reads the count of one fingerprint.
    pub fn get(&self, f: u128) -> (n: u64)
        ensures
            n == self.count(f),
    {
        match self.buckets.get(&f) {
            Some(v) => *v,
            None => 0,
        }
    }

    /// Raises the count of one fingerprint by one.
    fn bump(&mut self, f: u128)
        requires
            old(self).count(f) < u64::MAX,
        ensures
            final(self).count(f) == old(self).count(f) + 1,
            forall|g: u128| g != f ==> #[trigger] final(self).count(g) == old(self).count(g),
    {
        let cur = self.get(f);
        self.buckets.insert(f, cur + 1);
    }

    /// Computes the demotion denominator for fingerprints `h` against the
    /// counts of the emitted documents.
    pub fn den_of<T: Doc>(&self, h: Hashes, Ghost(emitted): Ghost<Seq<T>>) -> (d: u64)
        requires
            self.matches(emitted),
            3 * emitted.len() <= MAX_TAKEN,
        ensures
            d == hashes_den(h, emitted),
            1 <= d,
    {
        proof {
            lemma_taken_count_bound(emitted, h.site);
            lemma_taken_count_bound(emitted, h.title);
            lemma_taken_count_bound(emitted, h.url);
            lemma_demotion_den_bounds(
                taken_count(emitted, h.site) as int,
                taken_count(emitted, h.title) as int,
                taken_count(emitted, h.url) as int,
            );
        }
        demotion_den_exec(self.get(h.site), self.get(h.title), self.get(h.url))
    }

    /// Records that a document with fingerprints `h` has been emitted.
    pub fn update_counts<T: Doc>(
        &mut self,
        h: Hashes,
        Ghost(emitted): Ghost<Seq<T>>,
        Ghost(d): Ghost<T>,
    )
        requires
            old(self).matches(emitted),
            3 * emitted.len() + 3 <= u64::MAX,
            d.hashes_spec() == h,
        ensures
            final(self).matches(emitted.push(d)),
    {
        proof {
            lemma_taken_count_bound(emitted, h.site);
            lemma_taken_count_bound(emitted, h.title);
            lemma_taken_count_bound(emitted, h.url);
        }
        self.bump(h.site);
        self.bump(h.title);
        self.bump(h.url);
        proof {
            assert(emitted.push(d).drop_last() =~= emitted);
            assert forall|f: u128| #[trigger] self.count(f)
                == taken_count(emitted.push(d), f) by {
                assert(taken_count(emitted.push(d), f)
                    == taken_count(emitted, f) + hash_hits(h, f));
            }
        }
    }
}

/// `r` lists, without repetition, documents held by the collector: `hs`
/// gives their handles, and `r[i]` is the document inserted as `hs[i]`.
pub open spec fn picked_from<T: Doc>(
    history: Seq<T>,
    kept: Set<u64>,
    hs: Seq<u64>,
    r: Seq<T>,
) -> bool {
    &&& hs.len() == r.len()
    &&& hs.no_duplicates()
    &&& forall|i: int| #![trigger hs[i]] 0 <= i < hs.len()
        ==> kept.contains(hs[i]) && hs[i] < history.len() && r[i] == history[hs[i] as int]
}

/// The emitted documents come in descending order of raw score.
pub open spec fn sorted_desc_by_raw<T: Doc>(r: Seq<T>) -> bool {
    forall|i: int, j: int| #![trigger r[i], r[j]] 0 <= i < j < r.len()
        ==> r[i].score_spec() >= r[j].score_spec()
}

/// No document ever inserted but not emitted has a raw score above the
/// last emitted one.
pub open spec fn others_no_higher<T: Doc>(history: Seq<T>, hs: Seq<u64>, r: Seq<T>) -> bool {
    r.len() > 0 ==> forall|hd: u64| #![trigger history[hd as int]]
        hd < history.len() && !hs.contains(hd)
            ==> history[hd as int].score_spec() <= r[r.len() - 1].score_spec()
}

/// The emission is greedy under the demotion formula: at every step `i`,
/// against the taken-counts of the documents already emitted, the document
/// emitted next has a demoted score at least as high as that of every
/// document still held.
pub open spec fn greedy_by_demotion<T: Doc>(
    history: Seq<T>,
    kept: Set<u64>,
    hs: Seq<u64>,
    r: Seq<T>,
) -> bool {
    forall|i: int, hd: u64| #![trigger r.take(i), kept.contains(hd)]
        0 <= i < r.len() && kept.contains(hd) && !hs.take(i).contains(hd)
            ==> adjusted_ge(
                r[i].score_spec() as int,
                doc_den(r[i], r.take(i)),
                history[hd as int].score_spec() as int,
                doc_den(history[hd as int], r.take(i)),
            )
}

/// What `into_sorted_vec` guarantees of its result `r`, witnessed by the
/// handle sequence `hs`.
pub open spec fn selection_valid<T: Doc>(
    history: Seq<T>,
    kept: Set<u64>,
    hs: Seq<u64>,
    r: Seq<T>,
    de_rank: bool,
) -> bool {
    &&& picked_from(history, kept, hs, r)
    &&& if de_rank {
        greedy_by_demotion(history, kept, hs, r)
    } else {
        sorted_desc_by_raw(r) && others_no_higher(history, hs, r)
    }
}

/// The demotion denominator of any document over an emission of bounded
/// length is positive and bounded.
pub proof fn lemma_doc_den_bounds<T: Doc>(d: T, emitted: Seq<T>)
    requires
        3 * emitted.len() <= MAX_TAKEN,
    ensures
        84 <= doc_den(d, emitted) <= 0x400_0000_0000_0000,
{
    lemma_taken_count_bound(emitted, d.hashes_spec().site);
    lemma_taken_count_bound(emitted, d.hashes_spec().title);
    lemma_taken_count_bound(emitted, d.hashes_spec().url);
    lemma_demotion_den_bounds(
        taken_count(emitted, d.hashes_spec().site) as int,
        taken_count(emitted, d.hashes_spec().title) as int,
        taken_count(emitted, d.hashes_spec().url) as int,
    );
}

/// Removing index `i` from a duplicate-free sequence by swapping in the
/// last element: what the result holds, elementwise and as a set.
proof fn lemma_swap_remove_seq(s: Seq<u64>, i: int)
    requires
        0 <= i < s.len(),
        s.no_duplicates(),
    ensures
        ({
            let t = s.update(i, s[s.len() - 1]).drop_last();
            &&& t.no_duplicates()
            &&& t.len() == s.len() - 1
            &&& forall|h: u64| #[trigger] t.contains(h) <==> (s.contains(h) && h != s[i])
            &&& forall|j: int| #![trigger t[j]] 0 <= j < t.len()
                ==> t[j] == (if j == i { s[s.len() - 1] } else { s[j] })
        }),
{
    let t = s.update(i, s[s.len() - 1]).drop_last();
    assert forall|h: u64| #[trigger] t.contains(h) implies s.contains(h) && h != s[i] by {
        let j = choose|j: int| 0 <= j < t.len() && t[j] == h;
        if j == i {
            assert(s[s.len() - 1] == h);
            assert(i < s.len() - 1);
        } else {
            assert(s[j] == h);
        }
    }
    assert forall|h: u64| s.contains(h) && h != s[i] implies #[trigger] t.contains(h) by {
        let k = choose|k: int| 0 <= k < s.len() && s[k] == h;
        if k < s.len() - 1 {
            if k == i {
                assert(false);
            } else {
                assert(t[k] == h);
            }
        } else {
            assert(i < s.len() - 1);
            assert(t[i] == h);
        }
    }
}

/// Diversity-aware top-K priority queue over scored documents.
///
/// Capacity is `top_n + 1` (one spare, so the next extraction can compare
/// a candidate against the current maximum before committing). Documents
/// are tracked by a handle equal to their position in the insertion
/// history; the heap orders `(raw score, handle)` pairs, so pruning always
/// removes a document of minimal raw score.
pub struct BucketCollector<T: Doc> {
    count: BucketCount,
    documents: MinMaxHeap<(u64, u64)>,
    stored: HashMap<u64, T>,
    top_n: usize,
    next_handle: u64,
    history: Ghost<Seq<T>>,
}

impl<T: Doc> BucketCollector<T> {
    /// Every document ever inserted, in insertion order. A document's
    /// handle is its index here.
    pub closed spec fn history(self) -> Seq<T> {
        self.history@
    }

    /// The handles of the documents currently held.
    pub closed spec fn kept(self) -> Set<u64> {
        self.stored@.dom()
    }

    /// The configured `top_n`.
    pub closed spec fn capacity(self) -> int {
        self.top_n as int
    }

    /// Internal consistency of heap, store and history.
    pub closed spec fn inv(self) -> bool {
        &&& 1 <= self.top_n <= MAX_TOP_N
        &&& self.next_handle == self.history@.len()
        &&& forall|h: u64| #[trigger] self.stored@.contains_key(h)
            ==> h < self.history@.len() && self.stored@[h] == self.history@[h as int]
        &&& forall|h: u64| #[trigger] self.stored@.contains_key(h)
            ==> heap_entries(&self.documents).count((self.stored@[h].score_spec(), h)) == 1
        &&& forall|p: (u64, u64)| #[trigger] heap_entries(&self.documents).count(p) > 0
            ==> heap_entries(&self.documents).count(p) == 1 && self.stored@.contains_key(p.1)
                && p.0 == self.stored@[p.1].score_spec()
        &&& heap_entries(&self.documents).len() == self.stored@.dom().len()
        &&& self.stored@.dom().len() == if self.history@.len() < self.top_n + 1 {
            self.history@.len() as int
        } else {
            self.top_n + 1
        }
        &&& self.history@.len() <= self.top_n + 1 ==> forall|hd: u64|
            hd < self.history@.len() ==> self.stored@.contains_key(hd)
        &&& forall|hd: u64| hd < self.history@.len() && !self.stored@.contains_key(hd)
            ==> forall|hk: u64| #[trigger] self.stored@.contains_key(hk)
                ==> self.history@[hd as int].score_spec() <= self.history@[hk as int].score_spec()
        &&& forall|f: u128| #[trigger] self.count.count(f) == 0
    }

    /// Builds an empty collector that will keep at most `top_n + 1`
    /// documents at a time and emit at most `top_n`.
    pub fn new(top_n: usize) -> (c: Self)
        requires
            1 <= top_n <= MAX_TOP_N,
        ensures
            c.inv(),
            c.history() =~= Seq::<T>::empty(),
            c.capacity() == top_n,
    {
        let c = BucketCollector {
            count: BucketCount::new(),
            documents: heap_with_capacity(top_n + 1),
            stored: HashMap::new(),
            top_n,
            next_handle: 0,
            history: Ghost(Seq::empty()),
        };
        proof {
            assert(c.stored@.dom() =~= Set::<u64>::empty());
            vstd::multiset::lemma_multiset_empty_len::<(u64, u64)>(heap_entries(&c.documents));
        }
        c
    }

    /// Inserts a document; if the collector is over capacity, a document
    /// of minimal raw score is dropped again. Afterwards at most
    /// `top_n + 1` documents are held.
    pub fn insert(&mut self, doc: T)
        requires
            old(self).inv(),
            old(self).history().len() < u64::MAX,
        ensures
            final(self).inv(),
            final(self).history() =~= old(self).history().push(doc),
            final(self).capacity() == old(self).capacity(),
            final(self).kept().len() <= final(self).capacity() + 1,
    {
        let s = doc.score();
        let h = self.next_handle;
        proof {
            // the fresh handle is not yet stored
            if self.stored@.contains_key(h) {
                assert(h < self.history@.len());
            }
            self.history@ = self.history@.push(doc);
        }
        self.stored.insert(h, doc);
        heap_push(&mut self.documents, (s, h));
        self.next_handle = h + 1;
        proof {
            assert(self.stored@.dom() =~= old(self).stored@.dom().insert(h));
        }
        if heap_len(&self.documents) > self.top_n + 1 {
            let ghost mid = *self;
            let popped = heap_pop_min(&mut self.documents);
            match popped {
                Some(p) => {
                    self.stored.remove(&p.1);
                    proof {
                        assert(self.stored@.dom() =~= mid.stored@.dom().remove(p.1));
                        // the minimum that left scores no higher than anything,
                        // and anything dropped earlier chains through it
                        assert(heap_entries(&mid.documents)
                            == heap_entries(&old(self).documents).insert((s, h)));
                        assert(heap_entries(&mid.documents).count((s, h))
                            == heap_entries(&old(self).documents).count((s, h)) + 1);
                        assert(heap_entries(&mid.documents).count((s, h)) > 0);
                        assert(pair_le(p, (s, h)));
                        assert(p.0 <= s);
                        assert forall|hd: u64|
                            hd < self.history@.len() && !self.stored@.contains_key(hd)
                            implies forall|hk: u64| #[trigger] self.stored@.contains_key(hk)
                                ==> self.history@[hd as int].score_spec()
                                    <= self.history@[hk as int].score_spec() by {
                            assert forall|hk: u64| #[trigger] self.stored@.contains_key(hk)
                                implies self.history@[hd as int].score_spec()
                                    <= self.history@[hk as int].score_spec() by {
                                assert(mid.stored@.contains_key(hk));
                                let sk = mid.stored@[hk].score_spec();
                                assert(heap_entries(&mid.documents).count((sk, hk)) == 1);
                                assert(pair_le(p, (sk, hk)));
                                if hd == p.1 {
                                    // the document popped just now
                                    assert(self.history@[hd as int].score_spec() == p.0);
                                } else {
                                    // dropped before this call; h itself was not,
                                    // so hd was already dropped against old(self)
                                    assert(hd != h);
                                    assert(!old(self).stored@.contains_key(hd));
                                    if hk == h {
                                        // chain through the popped minimum
                                        assert(old(self).stored@.contains_key(p.1));
                                        assert(self.history@[hd as int].score_spec()
                                            <= self.history@[p.1 as int].score_spec());
                                        assert(self.history@[p.1 as int].score_spec() == p.0);
                                    } else {
                                        assert(old(self).stored@.contains_key(hk));
                                    }
                                }
                            }
                        }
                    }
                }
                None => {
                    proof {
                        assert(false);
                    }
                }
            }
        }
    }

    /// Empties the collector into a vector of at most `top_n` documents.
    ///
    /// Without `de_rank_similar` the result is a maximal selection by raw
    /// score, sorted descending. With it, the result is the greedy
    /// sequence under the demotion formula: each emitted document raises
    /// the taken-count of its three fingerprints, and each step emits a
    /// held document whose demoted score is maximal against the counts at
    /// that moment.
    pub fn into_sorted_vec(self, de_rank_similar: bool) -> (r: Vec<T>)
        requires
            self.inv(),
        ensures
            r@.len() == if self.history().len() < self.capacity() {
                self.history().len() as int
            } else {
                self.capacity()
            },
            exists|hs: Seq<u64>|
                #[trigger] selection_valid(self.history(), self.kept(), hs, r@, de_rank_similar),
    {
        let mut this = self;
        let top_n = this.top_n;
        let ghost histq = self.history@;
        let ghost kept0 = self.stored@.dom();
        let ghost kept_len: int = kept0.len() as int;

        // Drain the heap from the top: the pool ends up holding every
        // document, in descending `(raw score, handle)` order.
        let mut pool: Vec<T> = Vec::new();
        let ghost mut pool_hs: Seq<u64> = Seq::empty();
        while heap_len(&this.documents) > 0
            invariant
                1 <= top_n <= MAX_TOP_N,
                kept_len == kept0.len(),
                kept_len == if histq.len() < top_n + 1 { histq.len() as int } else { top_n + 1 },
                forall|f: u128| #[trigger] this.count.count(f) == 0,
                forall|h: u64| #[trigger] this.stored@.contains_key(h) ==> kept0.contains(h),
                forall|h: u64| #[trigger] this.stored@.contains_key(h)
                    ==> h < histq.len() && this.stored@[h] == histq[h as int],
                forall|h: u64| #[trigger] this.stored@.contains_key(h)
                    ==> heap_entries(&this.documents).count((this.stored@[h].score_spec(), h))
                        == 1,
                forall|p: (u64, u64)| #[trigger] heap_entries(&this.documents).count(p) > 0
                    ==> heap_entries(&this.documents).count(p) == 1
                        && this.stored@.contains_key(p.1)
                        && p.0 == this.stored@[p.1].score_spec(),
                heap_entries(&this.documents).len() == this.stored@.dom().len(),
                heap_entries(&this.documents).len() + pool@.len() == kept_len,
                forall|h: u64| #[trigger] kept0.contains(h)
                    ==> this.stored@.contains_key(h) || pool_hs.contains(h),
                forall|h: u64| #[trigger] pool_hs.contains(h)
                    ==> !this.stored@.contains_key(h) && kept0.contains(h),
                pool@.len() == pool_hs.len(),
                forall|i: int| #![trigger pool_hs[i]] 0 <= i < pool_hs.len()
                    ==> kept0.contains(pool_hs[i]) && pool_hs[i] < histq.len()
                        && pool@[i] == histq[pool_hs[i] as int],
                pool_hs.no_duplicates(),
                forall|i: int, j: int| #![trigger pool_hs[i], pool_hs[j]]
                    0 <= i < j < pool_hs.len()
                        ==> pair_le(
                            (pool@[j].score_spec(), pool_hs[j]),
                            (pool@[i].score_spec(), pool_hs[i]),
                        ),
                pool_hs.len() > 0 ==> forall|p: (u64, u64)|
                    #[trigger] heap_entries(&this.documents).count(p) > 0
                        ==> pair_le(
                            p,
                            (pool@[pool@.len() - 1].score_spec(), pool_hs[pool_hs.len() - 1]),
                        ),
            decreases heap_entries(&this.documents).len(),
        {
            let ghost pre = this;
            let popped = heap_pop_max(&mut this.documents);
            match popped {
                Some(p) => {
                    proof {
                        assert(heap_entries(&pre.documents).count(p) > 0);
                    }
                    let removed = this.stored.remove(&p.1);
                    match removed {
                        Some(d) => {
                            pool.push(d);
                            proof {
                                let prev_hs = pool_hs;
                                assert(pre.stored@.contains_key(p.1));
                                assert(!prev_hs.contains(p.1));
                                pool_hs = pool_hs.push(p.1);
                                assert(pool_hs.no_duplicates()) by {
                                    assert forall|i: int, j: int|
                                        0 <= i < j < pool_hs.len()
                                        implies pool_hs[i] != pool_hs[j] by {
                                        if j == pool_hs.len() - 1 {
                                            assert(prev_hs[i] == pool_hs[i]);
                                            assert(prev_hs.contains(pool_hs[i]));
                                        }
                                    }
                                }
                                assert forall|i: int, j: int| #![trigger pool_hs[i], pool_hs[j]]
                                    0 <= i < j < pool_hs.len()
                                    implies pair_le(
                                        (pool@[j].score_spec(), pool_hs[j]),
                                        (pool@[i].score_spec(), pool_hs[i]),
                                    ) by {
                                    if j == pool_hs.len() - 1 {
                                        if prev_hs.len() > 0 {
                                            let last = (
                                                pool@[prev_hs.len() - 1].score_spec(),
                                                prev_hs[prev_hs.len() - 1],
                                            );
                                            assert(pair_le(p, last));
                                        }
                                    }
                                }
                            }
                        }
                        None => {
                            proof {
                                assert(false);
                            }
                        }
                    }
                }
                None => {
                    proof {
                        assert(false);
                    }
                }
            }
        }
        proof {
            // the heap is empty, so the store is empty and the pool holds
            // every kept document
            assert forall|h: u64| !(#[trigger] this.stored@.contains_key(h)) by {
                if this.stored@.contains_key(h) {
                    let p = (this.stored@[h].score_spec(), h);
                    assert(heap_entries(&this.documents).count(p) == 1);
                    vstd::multiset::axiom_count_le_len(heap_entries(&this.documents), p);
                }
            }
        }

        if !de_rank_similar {
            let n = if top_n < pool.len() { top_n } else { pool.len() };
            let ghost full_pool = pool@;
            pool.truncate(n);
            proof {
                let hs = pool_hs.take(n as int);
                assert(pool@ =~= full_pool.take(n as int));
                assert(picked_from(histq, kept0, hs, pool@));
                assert(sorted_desc_by_raw::<T>(pool@)) by {
                    assert forall|i: int, j: int| #![trigger pool@[i], pool@[j]]
                        0 <= i < j < pool@.len()
                        implies pool@[i].score_spec() >= pool@[j].score_spec() by {
                        assert(pair_le(
                            (full_pool[j].score_spec(), pool_hs[j]),
                            (full_pool[i].score_spec(), pool_hs[i]),
                        ));
                    }
                }
                if n > 0 {
                    assert forall|hd: u64| hd < histq.len() && !hs.contains(hd)
                        implies histq[hd as int].score_spec()
                            <= pool@[n - 1].score_spec() by {
                        if kept0.contains(hd) {
                            let k = choose|k: int|
                                0 <= k < pool_hs.len() && pool_hs[k] == hd;
                            assert(k >= n);
                            if k > n - 1 {
                                assert(pair_le(
                                    (full_pool[k].score_spec(), pool_hs[k]),
                                    (full_pool[n - 1].score_spec(), pool_hs[n - 1]),
                                ));
                            }
                        } else {
                            // dropped at insert time: below everything kept
                            assert(self.stored@.contains_key(pool_hs[n - 1]));
                            assert(histq[hd as int].score_spec()
                                <= histq[pool_hs[n - 1] as int].score_spec());
                        }
                    }
                }
                assert(others_no_higher(histq, hs, pool@));
                assert(selection_valid(self.history(), self.kept(), hs, pool@, false));
            }
            return pool;
        }

        // Greedy extraction under the demotion formula.
        let mut res: Vec<T> = Vec::new();
        let ghost mut res_hs: Seq<u64> = Seq::empty();
        let ghost mut rem_hs: Seq<u64> = pool_hs;
        proof {
            assert forall|f: u128| #[trigger] this.count.count(f)
                == taken_count::<T>(res@, f) by {
                assert(this.count.count(f) == 0);
            }
        }
        while res.len() < top_n && pool.len() != 0
            invariant
                1 <= top_n <= MAX_TOP_N,
                kept_len == kept0.len(),
                kept_len == if histq.len() < top_n + 1 { histq.len() as int } else { top_n + 1 },
                res@.len() == res_hs.len(),
                res@.len() <= top_n,
                pool@.len() == rem_hs.len(),
                res@.len() + pool@.len() == kept_len,
                forall|i: int| #![trigger rem_hs[i]] 0 <= i < rem_hs.len()
                    ==> kept0.contains(rem_hs[i]) && rem_hs[i] < histq.len()
                        && pool@[i] == histq[rem_hs[i] as int],
                rem_hs.no_duplicates(),
                picked_from(histq, kept0, res_hs, res@),
                forall|h: u64| #[trigger] kept0.contains(h)
                    ==> res_hs.contains(h) || rem_hs.contains(h),
                forall|h: u64| #[trigger] rem_hs.contains(h) ==> !res_hs.contains(h),
                this.count.matches(res@),
                greedy_by_demotion(histq, kept0, res_hs, res@),
            decreases pool@.len(),
        {
            let ghost emitted = res@;
            proof {
                assert(3 * emitted.len() + 3 <= MAX_TAKEN);
            }
            let h0 = pool[0].hashes();
            let mut best_den = this.count.den_of::<T>(h0, Ghost(emitted));
            let mut best_score = pool[0].score();
            let mut best: usize = 0;
            let mut i: usize = 1;
            while i < pool.len()
                invariant
                    1 <= i <= pool@.len(),
                    0 <= best < i,
                    this.count.matches(emitted),
                    3 * emitted.len() + 3 <= MAX_TAKEN,
                    forall|k: int| #![trigger rem_hs[k]] 0 <= k < rem_hs.len()
                        ==> kept0.contains(rem_hs[k]) && rem_hs[k] < histq.len()
                            && pool@[k] == histq[rem_hs[k] as int],
                    best_score == pool@[best as int].score_spec(),
                    best_den == doc_den(pool@[best as int], emitted),
                    1 <= best_den,
                    forall|j: int| #![trigger pool@[j]] 0 <= j < i
                        ==> adjusted_ge(
                            pool@[best as int].score_spec() as int,
                            doc_den(pool@[best as int], emitted),
                            pool@[j].score_spec() as int,
                            doc_den(pool@[j], emitted),
                        ),
                decreases pool@.len() - i,
            {
                let hi = pool[i].hashes();
                let di = this.count.den_of::<T>(hi, Ghost(emitted));
                let si = pool[i].score();
                if !adjusted_ge_exec(best_score, best_den, si, di) {
                    proof {
                        let ghost ob = best as int;
                        assert forall|j: int| #![trigger pool@[j]] 0 <= j < i + 1
                            implies adjusted_ge(
                                pool@[i as int].score_spec() as int,
                                doc_den(pool@[i as int], emitted),
                                pool@[j].score_spec() as int,
                                doc_den(pool@[j], emitted),
                            ) by {
                            if j < i {
                                lemma_doc_den_bounds(pool@[j], emitted);
                                lemma_doc_den_bounds(pool@[ob], emitted);
                                lemma_doc_den_bounds(pool@[i as int], emitted);
                                crate::score::lemma_adjusted_ge_trans(
                                    pool@[i as int].score_spec() as int,
                                    doc_den(pool@[i as int], emitted),
                                    pool@[ob].score_spec() as int,
                                    doc_den(pool@[ob], emitted),
                                    pool@[j].score_spec() as int,
                                    doc_den(pool@[j], emitted),
                                );
                            }
                        }
                    }
                    best = i;
                    best_score = si;
                    best_den = di;
                }
                i += 1;
            }
            let ghost pre_pool = pool@;
            let ghost pre_rem = rem_hs;
            let ghost picked: u64 = rem_hs[best as int];
            let d = pool.swap_remove(best);
            let dh = d.hashes();
            this.count.update_counts::<T>(dh, Ghost(emitted), Ghost(d));
            res.push(d);
            proof {
                lemma_swap_remove_seq(pre_rem, best as int);
                let prev_res_hs = res_hs;
                res_hs = res_hs.push(picked);
                rem_hs = pre_rem.update(best as int, pre_rem[pre_rem.len() - 1]).drop_last();
                assert(res@ =~= emitted.push(d));
                assert(pool@ =~= pre_pool.update(best as int, pre_pool[pre_pool.len() - 1])
                    .drop_last());
                // alignment of the shrunken pool
                assert forall|k: int| #![trigger rem_hs[k]] 0 <= k < rem_hs.len()
                    implies kept0.contains(rem_hs[k]) && rem_hs[k] < histq.len()
                        && pool@[k] == histq[rem_hs[k] as int] by {
                    if k == best as int {
                        assert(rem_hs[k] == pre_rem[pre_rem.len() - 1]);
                        assert(pool@[k] == pre_pool[pre_pool.len() - 1]);
                    } else {
                        assert(rem_hs[k] == pre_rem[k]);
                        assert(pool@[k] == pre_pool[k]);
                    }
                }
                // the picked handle joins the result
                assert(picked_from(histq, kept0, res_hs, res@)) by {
                    assert forall|ii: int| #![trigger res_hs[ii]] 0 <= ii < res_hs.len()
                        implies kept0.contains(res_hs[ii]) && res_hs[ii] < histq.len()
                            && res@[ii] == histq[res_hs[ii] as int] by {
                        if ii < prev_res_hs.len() {
                            assert(res_hs[ii] == prev_res_hs[ii]);
                        } else {
                            assert(res_hs[ii] == picked);
                            assert(res@[ii] == d);
                            assert(d == pre_pool[best as int]);
                        }
                    }
                    assert(res_hs.no_duplicates()) by {
                        assert(pre_rem[best as int] == picked);
                        assert(pre_rem.contains(picked));
                        assert(!prev_res_hs.contains(picked));
                        assert forall|i1: int, j1: int|
                            0 <= i1 < j1 < res_hs.len()
                            implies res_hs[i1] != res_hs[j1] by {
                            if j1 == res_hs.len() - 1 {
                                assert(prev_res_hs[i1] == res_hs[i1]);
                                assert(prev_res_hs.contains(res_hs[i1]));
                            }
                        }
                    }
                }
                // cover and disjointness
                assert forall|h: u64| #[trigger] kept0.contains(h)
                    implies res_hs.contains(h) || rem_hs.contains(h) by {
                    if prev_res_hs.contains(h) {
                        let k = choose|k: int|
                            0 <= k < prev_res_hs.len() && prev_res_hs[k] == h;
                        assert(res_hs[k] == h);
                    } else {
                        assert(pre_rem.contains(h));
                        if h == picked {
                            assert(res_hs[res_hs.len() - 1] == h);
                        }
                    }
                }
                assert forall|h: u64| #[trigger] rem_hs.contains(h)
                    implies !res_hs.contains(h) by {
                    assert(pre_rem.contains(h) && h != picked);
                    if res_hs.contains(h) {
                        let k = choose|k: int| 0 <= k < res_hs.len() && res_hs[k] == h;
                        if k < prev_res_hs.len() {
                            assert(prev_res_hs[k] == h);
                        }
                    }
                }
                // the greedy property, step by step
                assert forall|i2: int, hd: u64| #![trigger res@.take(i2), kept0.contains(hd)]
                    0 <= i2 < res@.len() && kept0.contains(hd)
                        && !res_hs.take(i2).contains(hd)
                    implies adjusted_ge(
                        res@[i2].score_spec() as int,
                        doc_den(res@[i2], res@.take(i2)),
                        histq[hd as int].score_spec() as int,
                        doc_den(histq[hd as int], res@.take(i2)),
                    ) by {
                    if i2 < emitted.len() {
                        assert(res@.take(i2) =~= emitted.take(i2));
                        assert(res_hs.take(i2) =~= prev_res_hs.take(i2));
                        assert(res@[i2] == emitted[i2]);
                    } else {
                        // the new step: i2 == emitted.len()
                        assert(res@.take(i2) =~= emitted);
                        assert(res_hs.take(i2) =~= prev_res_hs);
                        assert(res@[i2] == d);
                        assert(!prev_res_hs.contains(hd));
                        assert(pre_rem.contains(hd));
                        let k = choose|k: int|
                            0 <= k < pre_rem.len() && pre_rem[k] == hd;
                        assert(pre_pool[k] == histq[hd as int]);
                        assert(adjusted_ge(
                            pre_pool[best as int].score_spec() as int,
                            doc_den(pre_pool[best as int], emitted),
                            pre_pool[k].score_spec() as int,
                            doc_den(pre_pool[k], emitted),
                        ));
                    }
                }
                assert(greedy_by_demotion(histq, kept0, res_hs, res@));
            }
        }
        proof {
            assert(selection_valid(self.history(), self.kept(), res_hs, res@, true));
        }
        res
    }
}


/// Facts the collector's internal invariant gives about its public views:
/// every held handle is a history index, the number held is
/// `min(inserted, top_n + 1)`, and nothing dropped scores above anything
/// held.
impl<T: Doc> BucketCollector<T> {
    pub proof fn lemma_kept_facts(self)
        requires
            self.inv(),
        ensures
            forall|h: u64| #[trigger] self.kept().contains(h) ==> h < self.history().len(),
            self.kept().len() == if self.history().len() < self.capacity() + 1 {
                self.history().len() as int
            } else {
                self.capacity() + 1
            },
            forall|hd: u64, hk: u64|
                #![trigger self.kept().contains(hk), self.history()[hd as int]]
                hd < self.history().len() && !self.kept().contains(hd)
                    && self.kept().contains(hk)
                    ==> self.history()[hd as int].score_spec()
                        <= self.history()[hk as int].score_spec(),
    {
    }
}

/// Under de-ranking the output is greedy: for every consecutive pair of
/// emitted documents, at the moment the first was emitted its demoted
/// score was at least the second's, against the same taken-counts.
pub proof fn lemma_greedy_consecutive<T: Doc>(
    history: Seq<T>,
    kept: Set<u64>,
    hs: Seq<u64>,
    r: Seq<T>,
)
    requires
        selection_valid(history, kept, hs, r, true),
    ensures
        forall|i: int| #![trigger r.take(i)] 0 <= i < r.len() - 1
            ==> adjusted_ge(
                r[i].score_spec() as int,
                doc_den(r[i], r.take(i)),
                r[i + 1].score_spec() as int,
                doc_den(r[i + 1], r.take(i)),
            ),
{
    assert forall|i: int| #![trigger r.take(i)] 0 <= i < r.len() - 1
        implies adjusted_ge(
            r[i].score_spec() as int,
            doc_den(r[i], r.take(i)),
            r[i + 1].score_spec() as int,
            doc_den(r[i + 1], r.take(i)),
        ) by {
        let hd = hs[i + 1];
        assert(kept.contains(hd));
        assert(!hs.take(i).contains(hd)) by {
            if hs.take(i).contains(hd) {
                let j = choose|j: int| 0 <= j < i && hs.take(i)[j] == hd;
                assert(hs[j] == hs[i + 1]);
            }
        }
        assert(r[i + 1] == history[hd as int]);
    }
}

/// The document a segment scan hands onward: fingerprints, local id,
/// segment ordinal and raw score.
#[derive(Clone, Copy, Debug, PartialEq, Eq, Structural)]
pub struct SegmentDoc {
    pub hashes: Hashes,
    pub id: u32,
    pub segment: u32,
    pub score: u64,
}

impl Doc for SegmentDoc {
    open spec fn score_spec(&self) -> u64 {
        self.score
    }

    open spec fn hashes_spec(&self) -> Hashes {
        self.hashes
    }

    fn score(&self) -> u64 {
        self.score
    }

    fn id(&self) -> u32 {
        self.id
    }

    fn hashes(&self) -> Hashes {
        self.hashes
    }
}

} // verus!

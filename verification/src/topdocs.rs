//! Per-segment streaming top-K collection and the global merge.
//!
//! A [`TopDocs`] describes one query's collection: the number of results
//! wanted, a pagination offset, an optional per-segment cap on documents
//! considered, and whether near-duplicates are de-ranked in the final
//! merge. Each segment scan feeds a [`TopSegmentCollector`]; the harvested
//! per-segment lists are merged through one diversity-aware
//! [`BucketCollector`] into the final page of [`WebsitePointer`]s.

use vstd::prelude::*;
use crate::collector::BucketCollector;
use crate::collector::Doc;
use crate::collector::DocAddress;
use crate::collector::Hashes;
use crate::collector::MAX_TOP_N;
use crate::collector::SegmentDoc;
use crate::collector::WebsitePointer;
use crate::collector::selection_valid;
use crate::fastfield::FastField;
use crate::fastfield::FastFieldCache;
use crate::fastfield::SegmentCache;
use crate::fastfield::combine_u64s;

verus! {

broadcast use vstd::seq_lib::group_seq_properties;

/// Caps how many documents are considered in total, spread evenly over
/// the index's segments.
#[derive(Clone, Copy, Debug, PartialEq, Eq, Structural)]
pub struct MaxDocsConsidered {
    pub total_docs: usize,
    pub segments: usize,
}

/// The `WebsitePointer` a merged segment document maps to.
pub open spec fn pointer_of(d: SegmentDoc) -> WebsitePointer {
    WebsitePointer {
        score: d.score,
        hashes: d.hashes,
        address: DocAddress { segment: d.segment, doc_id: d.id },
    }
}

/// The flattened stream of all segment fruits, in merge order.
pub open spec fn flat_of(fruits: Seq<Vec<SegmentDoc>>) -> Seq<SegmentDoc> {
    fruits.map_values(|v: Vec<SegmentDoc>| v@).flatten()
}

/// What [`TopDocs::merge_fruits`] guarantees: some set `kept` of at most
/// `top_n + offset + 1` handles into the flattened input survives the
/// bounded-memory insertion phase with nothing dropped scoring above
/// anything kept; `full` is a valid diversity-demoted emission from it;
/// and the result is `full` minus the first `offset` entries, mapped to
/// pointers.
pub open spec fn merge_valid(
    flat: Seq<SegmentDoc>,
    kept: Set<u64>,
    hs: Seq<u64>,
    full: Seq<SegmentDoc>,
    r: Seq<WebsitePointer>,
    top_n: int,
    offset: int,
    de_rank: bool,
) -> bool {
    &&& forall|h: u64| #[trigger] kept.contains(h) ==> h < flat.len()
    &&& kept.len() == if flat.len() < top_n + offset + 1 {
        flat.len() as int
    } else {
        top_n + offset + 1
    }
    &&& forall|hd: u64, hk: u64|
        #![trigger kept.contains(hk), flat[hd as int]]
        hd < flat.len() && !kept.contains(hd) && kept.contains(hk)
            ==> flat[hd as int].score <= flat[hk as int].score
    &&& selection_valid(flat, kept, hs, full, de_rank)
    &&& full.len() == if flat.len() < top_n + offset { flat.len() as int } else { top_n + offset }
    &&& r.len() == if full.len() <= offset { 0int } else { full.len() - offset }
    &&& forall|i: int| #![trigger r[i]] 0 <= i < r.len() ==> r[i] == pointer_of(full[i + offset])
}

/// Configuration of one query's top-K collection.
pub struct TopDocs {
    top_n: usize,
    offset: usize,
    max_docs: Option<MaxDocsConsidered>,
    fastfield_cache: FastFieldCache,
    de_rank_similar: bool,
}

impl TopDocs {
    /// The number of results a page holds.
    pub closed spec fn spec_top_n(self) -> int {
        self.top_n as int
    }

    /// How many leading results are skipped for pagination.
    pub closed spec fn spec_offset(self) -> int {
        self.offset as int
    }

    /// The optional cap on documents considered.
    pub closed spec fn spec_max_docs(self) -> Option<MaxDocsConsidered> {
        self.max_docs
    }

    /// Whether the final merge de-ranks near-duplicates.
    pub closed spec fn spec_de_rank_similar(self) -> bool {
        self.de_rank_similar
    }

    /// The fast-field cache the segment collectors read.
    pub closed spec fn spec_cache(self) -> FastFieldCache {
        self.fastfield_cache
    }

    /// Builds a collection of the best `top_n` documents.
    pub fn with_limit(top_n: usize, fastfield_cache: FastFieldCache) -> (t: Self)
        requires
            1 <= top_n <= MAX_TOP_N,
        ensures
            t.spec_top_n() == top_n,
            t.spec_offset() == 0,
            t.spec_max_docs() is None,
            !t.spec_de_rank_similar(),
            t.spec_cache() == fastfield_cache,
    {
        Self { top_n, offset: 0, max_docs: None, de_rank_similar: false, fastfield_cache }
    }

    /// Skips the first `offset` results (pagination).
    pub fn and_offset(self, offset: usize) -> (t: Self)
        ensures
            t.spec_top_n() == self.spec_top_n(),
            t.spec_offset() == offset,
            t.spec_max_docs() == self.spec_max_docs(),
            t.spec_de_rank_similar() == self.spec_de_rank_similar(),
            t.spec_cache() == self.spec_cache(),
    {
        Self { offset, ..self }
    }

    /// Caps how many documents each segment considers.
    pub fn and_max_docs(self, max_docs: MaxDocsConsidered) -> (t: Self)
        ensures
            t.spec_top_n() == self.spec_top_n(),
            t.spec_offset() == self.spec_offset(),
            t.spec_max_docs() == Some(max_docs),
            t.spec_de_rank_similar() == self.spec_de_rank_similar(),
            t.spec_cache() == self.spec_cache(),
    {
        Self { max_docs: Some(max_docs), ..self }
    }

    /// Records that the query asked for de-ranking of near-duplicates.
    /// The final merge applies the diversity demotion in every case; the
    /// flag is part of the query configuration.
    pub fn and_de_rank_similar(self) -> (t: Self)
        ensures
            t.spec_top_n() == self.spec_top_n(),
            t.spec_offset() == self.spec_offset(),
            t.spec_max_docs() == self.spec_max_docs(),
            t.spec_de_rank_similar(),
            t.spec_cache() == self.spec_cache(),
    {
        Self { de_rank_similar: true, ..self }
    }

    /// Wraps this collection with a score tweaker: during the scan each
    /// raw score is first rewritten by the tweaker.
    pub fn tweak_score<TScoreTweaker>(self, score_tweaker: TScoreTweaker) -> (c:
        TweakedScoreTopCollector<TScoreTweaker>)
        ensures
            c.score_tweaker == score_tweaker,
            c.collector == self,
    {
        TweakedScoreTopCollector::new(score_tweaker, self)
    }

    /// Scoring is always requested from the index scan.
    pub fn requires_scoring(&self) -> (r: bool)
        ensures
            r,
    {
        true
    }

    /// Borrows the fast-field cache of one segment.
    pub fn segment_cache(&self, segment: u32) -> (r: &SegmentCache)
        requires
            (segment as int) < self.spec_cache().segments@.len(),
        ensures
            *r == self.spec_cache().segments@[segment as int],
    {
        self.fastfield_cache.get_segment(segment)
    }

    /// Builds the fresh collector for one segment: an empty bucket
    /// collector of capacity `top_n + offset`, and the per-segment cap
    /// `total_docs / segments` when one is configured.
    pub fn for_segment(&self, segment_local_id: u32) -> (c: TopSegmentCollector)
        requires
            1 <= self.spec_top_n() + self.spec_offset() <= MAX_TOP_N,
            self.spec_max_docs() matches Some(m) ==> m.segments >= 1,
        ensures
            c.wf(),
            c.collected() =~= Seq::<SegmentDoc>::empty(),
            c.segment_ord() == segment_local_id,
            c.spec_max_docs() == match self.spec_max_docs() {
                Some(m) => Some((m.total_docs as int / m.segments as int) as usize),
                None => None::<usize>,
            },
            c.num_taken() == 0,
            c.spec_top_n() == self.spec_top_n() + self.spec_offset(),
    {
        let max_docs = match &self.max_docs {
            Some(m) => Some(m.total_docs / m.segments),
            None => None,
        };
        TopSegmentCollector {
            max_docs,
            num_docs_taken: 0,
            segment_ord: segment_local_id,
            bucket_collector: BucketCollector::new(self.top_n + self.offset),
        }
    }

    /// Merges the harvested per-segment lists through one diversity-aware
    /// bucket collector and returns the requested page of pointers. The
    /// final merge always applies the diversity demotion: cross-segment
    /// duplicates can only be caught here.
    pub fn merge_fruits(&self, segment_fruits: Vec<Vec<SegmentDoc>>) -> (r: Vec<WebsitePointer>)
        requires
            1 <= self.spec_top_n() + self.spec_offset() <= MAX_TOP_N,
            flat_of(segment_fruits@).len() < u64::MAX,
        ensures
            exists|kept: Set<u64>, hs: Seq<u64>, full: Seq<SegmentDoc>|
                #[trigger] merge_valid(
                    flat_of(segment_fruits@),
                    kept,
                    hs,
                    full,
                    r@,
                    self.spec_top_n(),
                    self.spec_offset(),
                    true,
                ),
    {
        let cap: usize = self.top_n + self.offset;
        let mut collector = BucketCollector::<SegmentDoc>::new(cap);
        let ghost fruits_seq = segment_fruits@.map_values(|v: Vec<SegmentDoc>| v@);
        let ghost flat = flat_of(segment_fruits@);
        let mut a: usize = 0;
        while a < segment_fruits.len()
            invariant
                collector.inv(),
                collector.capacity() == cap,
                1 <= cap <= MAX_TOP_N,
                a <= segment_fruits.len(),
                fruits_seq == segment_fruits@.map_values(|v: Vec<SegmentDoc>| v@),
                flat == flat_of(segment_fruits@),
                flat.len() < u64::MAX,
                collector.history() =~= fruits_seq.take(a as int).flatten(),
            decreases segment_fruits@.len() - a,
        {
            let ghost outer_pre = collector.history();
            let fruit = &segment_fruits[a];
            let mut b: usize = 0;
            while b < fruit.len()
                invariant
                    collector.inv(),
                    collector.capacity() == cap,
                    1 <= cap <= MAX_TOP_N,
                    a < segment_fruits.len(),
                    b <= fruit.len(),
                    fruit == &segment_fruits[a as int],
                    fruits_seq == segment_fruits@.map_values(|v: Vec<SegmentDoc>| v@),
                    flat == flat_of(segment_fruits@),
                    flat.len() < u64::MAX,
                    outer_pre =~= fruits_seq.take(a as int).flatten(),
                    collector.history() =~= outer_pre + fruit@.take(b as int),
                decreases fruit@.len() - b,
            {
                proof {
                    // the history so far is a prefix of the whole stream
                    vstd::seq_lib::lemma_flatten_concat(
                        fruits_seq.take(a as int),
                        fruits_seq.skip(a as int),
                    );
                    assert(fruits_seq.take(a as int) + fruits_seq.skip(a as int) =~= fruits_seq);
                    vstd::seq_lib::lemma_flatten_concat(
                        seq![fruit@],
                        fruits_seq.skip(a as int + 1),
                    );
                    assert(seq![fruit@] + fruits_seq.skip(a as int + 1)
                        =~= fruits_seq.skip(a as int));
                    seq![fruit@].lemma_flatten_one_element();
                    assert(fruits_seq.skip(a as int).flatten()
                        =~= fruit@ + fruits_seq.skip(a as int + 1).flatten());
                    assert(collector.history().len() <= flat.len());
                }
                collector.insert(fruit[b]);
                b += 1;
                proof {
                    assert(collector.history() =~= outer_pre + fruit@.take(b as int));
                }
            }
            a += 1;
            proof {
                assert(fruits_seq.take(a as int)
                    =~= fruits_seq.take(a as int - 1).push(fruit@));
                fruits_seq.take(a as int - 1).lemma_flatten_push(fruit@);
                assert(collector.history() =~= fruits_seq.take(a as int).flatten());
            }
        }
        proof {
            assert(fruits_seq.take(segment_fruits@.len() as int) =~= fruits_seq);
            assert(collector.history() =~= flat);
            collector.lemma_kept_facts();
        }
        let ghost kept = collector.kept();
        let ghost pre = collector;
        let sorted = collector.into_sorted_vec(true);
        let ghost full = sorted@;
        let mut r: Vec<WebsitePointer> = Vec::new();
        let mut i: usize = if self.offset < sorted.len() { self.offset } else { sorted.len() };
        let ghost start = i as int;
        while i < sorted.len()
            invariant
                start <= i <= sorted@.len(),
                start == if self.spec_offset() < sorted@.len() as int {
                    self.spec_offset()
                } else {
                    sorted@.len() as int
                },
                r@.len() == i - start,
                forall|j: int| #![trigger r@[j]] 0 <= j < r@.len()
                    ==> r@[j] == pointer_of(sorted@[j + start]),
            decreases sorted@.len() - i,
        {
            let d = &sorted[i];
            r.push(WebsitePointer {
                score: d.score,
                hashes: d.hashes,
                address: DocAddress { segment: d.segment, doc_id: d.id },
            });
            i += 1;
        }
        proof {
            let hs = choose|hs: Seq<u64>|
                #[trigger] selection_valid(
                    pre.history(),
                    pre.kept(),
                    hs,
                    full,
                    true,
                );
            assert(selection_valid(flat, kept, hs, full, true));
            assert(merge_valid(
                flat_of(segment_fruits@),
                kept,
                hs,
                full,
                r@,
                self.spec_top_n(),
                self.spec_offset(),
                true,
            ));
        }
        r
    }
}

/// Streaming per-segment collector: reads each collected document's
/// fingerprints from the fast-field cache and feeds a bucket collector.
pub struct TopSegmentCollector {
    max_docs: Option<usize>,
    num_docs_taken: usize,
    segment_ord: u32,
    bucket_collector: BucketCollector<SegmentDoc>,
}

impl TopSegmentCollector {
    /// The documents accepted so far, in arrival order.
    pub closed spec fn collected(self) -> Seq<SegmentDoc> {
        self.bucket_collector.history()
    }

    /// The ordinal of the segment this collector serves.
    pub closed spec fn segment_ord(self) -> int {
        self.segment_ord as int
    }

    /// The per-segment cap, if any.
    pub closed spec fn spec_max_docs(self) -> Option<usize> {
        self.max_docs
    }

    /// How many documents have been accepted.
    pub closed spec fn num_taken(self) -> int {
        self.num_docs_taken as int
    }

    /// The capacity of the underlying bucket collector.
    pub closed spec fn spec_top_n(self) -> int {
        self.bucket_collector.capacity()
    }

    /// The handles (history indices) of the documents still held.
    pub closed spec fn bucket_kept(self) -> Set<u64> {
        self.bucket_collector.kept()
    }

    /// The collector's internal invariant.
    pub closed spec fn wf(self) -> bool {
        &&& self.bucket_collector.inv()
        &&& self.spec_max_docs() matches Some(m) ==> self.num_docs_taken <= m
            && self.num_docs_taken == self.bucket_collector.history().len()
    }

    /// Reads one 128-bit fingerprint of `doc` from the segment cache.
    fn get_hash(cache: &SegmentCache, doc: u32, field: &FastField) -> (r: u128)
        requires
            cache.has_hashes(doc),
            field.is_hash_field(),
        ensures
            *field is SiteHash ==> r == cache.hashes_of(doc).site,
            *field is TitleHash ==> r == cache.hashes_of(doc).title,
            *field is UrlHash ==> r == cache.hashes_of(doc).url,
    {
        let hash = cache.get_u64s(field, doc);
        match hash {
            Some(v) => combine_u64s((v[0], v[1])),
            None => {
                proof {
                    assert(false);
                }
                0
            }
        }
    }

    /// Accepts one scored document, unless the per-segment cap has been
    /// reached; its fingerprints are read from the segment cache.
    pub fn collect(&mut self, cache: &SegmentCache, doc: u32, score: u64)
        requires
            old(self).wf(),
            cache.has_hashes(doc),
            old(self).collected().len() < u64::MAX,
        ensures
            final(self).wf(),
            final(self).segment_ord() == old(self).segment_ord(),
            final(self).spec_max_docs() == old(self).spec_max_docs(),
            final(self).spec_top_n() == old(self).spec_top_n(),
            ({
                let d = SegmentDoc {
                    hashes: cache.hashes_of(doc),
                    id: doc,
                    segment: old(self).segment_ord() as u32,
                    score,
                };
                if old(self).spec_max_docs() matches Some(m) && old(self).num_taken() >= m {
                    final(self).collected() == old(self).collected() && final(self).num_taken()
                        == old(self).num_taken()
                } else {
                    final(self).collected() =~= old(self).collected().push(d) && (
                    old(self).spec_max_docs() is Some ==> final(self).num_taken() == old(
                        self,
                    ).num_taken() + 1)
                }
            }),
    {
        match &self.max_docs {
            Some(max_docs) => {
                if self.num_docs_taken >= *max_docs {
                    return ;
                }
                self.num_docs_taken = self.num_docs_taken + 1;
            }
            None => {}
        }
        let site = Self::get_hash(cache, doc, &FastField::SiteHash);
        let title = Self::get_hash(cache, doc, &FastField::TitleHash);
        let url = Self::get_hash(cache, doc, &FastField::UrlHash);
        self.bucket_collector.insert(SegmentDoc {
            hashes: Hashes { site, title, url },
            id: doc,
            segment: self.segment_ord,
            score,
        });
    }

    /// Harvests this segment's fruit: its best documents by raw score,
    /// sorted descending. Diversity is not applied at the segment stage;
    /// cross-segment duplicates are handled in the final merge.
    pub fn harvest(self) -> (r: Vec<SegmentDoc>)
        requires
            self.wf(),
        ensures
            r@.len() == if self.collected().len() < self.spec_top_n() {
                self.collected().len() as int
            } else {
                self.spec_top_n()
            },
            exists|hs: Seq<u64>|
                #[trigger] selection_valid(self.collected(), self.bucket_kept(), hs, r@, false),
    {
        let ghost me = self;
        let r = self.bucket_collector.into_sorted_vec(false);
        proof {
            let hs = choose|hs: Seq<u64>|
                #[trigger] selection_valid(
                    me.bucket_collector.history(),
                    me.bucket_collector.kept(),
                    hs,
                    r@,
                    false,
                );
            assert(selection_valid(me.collected(), me.bucket_kept(), hs, r@, false));
        }
        r
    }
}

/// Wraps a score tweaker around a top-K collection: during the scan each
/// raw score is first rewritten by the tweaker, and the tweaked score is
/// what the segment collectors rank by.
pub struct TweakedScoreTopCollector<TScoreTweaker> {
    pub score_tweaker: TScoreTweaker,
    pub collector: TopDocs,
}

impl<TScoreTweaker> TweakedScoreTopCollector<TScoreTweaker> {
    /// Pairs a tweaker with a collection.
    pub fn new(score_tweaker: TScoreTweaker, collector: TopDocs) -> (c: Self)
        ensures
            c.score_tweaker == score_tweaker,
            c.collector == collector,
    {
        TweakedScoreTopCollector { score_tweaker, collector }
    }
}

} // verus!

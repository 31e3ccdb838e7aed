use searchrank::collector::BucketCollector;
use searchrank::collector::Hashes;
use searchrank::collector::SegmentDoc;
use searchrank::score::adjusted_ge_exec;
use searchrank::score::demotion_den_exec;
use searchrank::topdocs::MaxDocsConsidered;
use searchrank::topdocs::TopDocs;
use searchrank::fastfield::DocFastFields;
use searchrank::fastfield::FastFieldCache;
use searchrank::fastfield::SegmentCache;

// Scores are fixed-point in tenths: 31 stands for a raw score of 3.1.
fn test(top_n: usize, docs: &[(u128, u32, u64)], expected: &[(u64, u32)]) {
    let mut collector: BucketCollector<SegmentDoc> = BucketCollector::new(top_n);

    for doc in docs {
        collector.insert(SegmentDoc {
            hashes: Hashes { site: doc.0, title: doc.0, url: doc.0 },
            id: doc.1,
            segment: 0,
            score: doc.2,
        });
    }

    let res: Vec<(u64, u32)> = collector
        .into_sorted_vec(true)
        .into_iter()
        .map(|doc| (doc.score, doc.id))
        .collect();

    assert_eq!(&res, expected);
}

#[test]
fn all_different() {
    test(
        3,
        &[(1, 123, 10), (2, 124, 20), (3, 125, 30), (4, 126, 40), (5, 127, 50)],
        &[(50, 127), (40, 126), (30, 125)],
    );
}

#[test]
fn less_than_topn() {
    test(
        10,
        &[(3, 125, 30), (4, 126, 40), (5, 127, 50)],
        &[(50, 127), (40, 126), (30, 125)],
    );
}

#[test]
fn same_key_de_prioritised() {
    test(
        10,
        &[(1, 125, 30), (2, 126, 31), (2, 127, 50)],
        &[(50, 127), (30, 125), (31, 126)],
    );

    test(
        2,
        &[(1, 125, 30), (2, 126, 31), (2, 127, 50)],
        &[(50, 127), (30, 125)],
    );
}

#[test]
fn plain_sort_without_de_rank() {
    let mut collector: BucketCollector<SegmentDoc> = BucketCollector::new(3);
    for (hash, id, score) in [(1u128, 1u32, 20u64), (2, 2, 50), (2, 3, 45), (3, 4, 10), (4, 5, 30)] {
        collector.insert(SegmentDoc {
            hashes: Hashes { site: hash, title: hash, url: hash },
            id,
            segment: 0,
            score,
        });
    }
    let res: Vec<(u64, u32)> = collector
        .into_sorted_vec(false)
        .into_iter()
        .map(|doc| (doc.score, doc.id))
        .collect();
    // the three documents with the highest raw scores, descending
    assert_eq!(res, vec![(50, 2), (45, 3), (30, 5)]);
}

#[test]
fn demotion_is_monotone_in_each_count() {
    // raising any taken-count strictly lowers the adjusted score
    let base = demotion_den_exec(0, 0, 0);
    for (s, t, u) in [(1u64, 0u64, 0u64), (0, 1, 0), (0, 0, 1), (2, 3, 1)] {
        let worse = demotion_den_exec(s, t, u);
        assert!(adjusted_ge_exec(70, base, 70, worse));
        assert!(!adjusted_ge_exec(70, worse, 70, base));
    }
}

#[test]
fn demotion_denominator_values() {
    // 84 / ((14 + sS) * (1 + 10 * sU) * (6 + sT))
    assert_eq!(demotion_den_exec(0, 0, 0), 14 * 1 * 6);
    assert_eq!(demotion_den_exec(1, 1, 1), 15 * 11 * 7);
}

fn single_doc_cache(doc_id_count: usize) -> SegmentCache {
    let mut docs = Vec::new();
    for i in 0..doc_id_count {
        docs.push(DocFastFields {
            host_centrality: Some(10),
            page_centrality: Some(5),
            is_homepage: Some(1),
            fetch_time_ms: Some(20),
            last_updated: Some(0),
            num_trackers: Some(0),
            region: Some(0),
            site_hash: Some((0, i as u64)),
            title_hash: Some((1, i as u64)),
            url_hash: Some((2, i as u64)),
        });
    }
    SegmentCache { docs }
}

#[test]
fn segment_collect_and_merge() {
    let cache = FastFieldCache { segments: vec![single_doc_cache(4)] };
    let top_docs = TopDocs::with_limit(2, cache).and_de_rank_similar();
    let mut seg = top_docs.for_segment(0);
    {
        let cache = top_docs.segment_cache(0);
        seg.collect(cache, 0, 10);
        seg.collect(cache, 1, 40);
        seg.collect(cache, 2, 30);
        seg.collect(cache, 3, 20);
    }
    let fruit = seg.harvest();
    // per-segment harvest keeps top_n + offset documents, raw order
    let scores: Vec<u64> = fruit.iter().map(|d| d.score).collect();
    assert_eq!(scores, vec![40, 30]);

    let pointers = top_docs.merge_fruits(vec![fruit]);
    assert_eq!(pointers.len(), 2);
    assert_eq!(pointers[0].score, 40);
    assert_eq!(pointers[0].address.doc_id, 1);
    assert_eq!(pointers[1].score, 30);
    assert_eq!(pointers[1].address.doc_id, 2);
}

#[test]
fn merge_always_applies_diversity_demotion() {
    // two documents of one site and one of another; the merge demotes
    // the duplicate even though de-ranking was not requested
    let mut docs = Vec::new();
    for site in [1u64, 2, 2] {
        docs.push(DocFastFields {
            host_centrality: None,
            page_centrality: None,
            is_homepage: None,
            fetch_time_ms: None,
            last_updated: None,
            num_trackers: None,
            region: None,
            site_hash: Some((0, site)),
            title_hash: Some((1, site)),
            url_hash: Some((2, site)),
        });
    }
    let cache = FastFieldCache { segments: vec![SegmentCache { docs }] };
    let top_docs = TopDocs::with_limit(3, cache);
    let mut seg = top_docs.for_segment(0);
    {
        let cache = top_docs.segment_cache(0);
        seg.collect(cache, 0, 30);
        seg.collect(cache, 1, 31);
        seg.collect(cache, 2, 50);
    }
    let pointers = top_docs.merge_fruits(vec![seg.harvest()]);
    let out: Vec<(u64, u32)> = pointers.iter().map(|p| (p.score, p.address.doc_id)).collect();
    assert_eq!(out, vec![(50, 2), (30, 0), (31, 1)]);
}

#[test]
fn merge_with_offset_skips_leading_results() {
    let cache = FastFieldCache { segments: vec![single_doc_cache(4)] };
    let top_docs = TopDocs::with_limit(2, cache).and_offset(1);
    let mut seg = top_docs.for_segment(0);
    {
        let cache = top_docs.segment_cache(0);
        for (doc, score) in [(0u32, 10u64), (1, 40), (2, 30), (3, 20)] {
            seg.collect(cache, doc, score);
        }
    }
    let pointers = top_docs.merge_fruits(vec![seg.harvest()]);
    let scores: Vec<u64> = pointers.iter().map(|p| p.score).collect();
    assert_eq!(scores, vec![30, 20]);
}

#[test]
fn max_docs_cap_stops_collection() {
    let cache = FastFieldCache { segments: vec![single_doc_cache(4)] };
    let top_docs = TopDocs::with_limit(3, cache)
        .and_max_docs(MaxDocsConsidered { total_docs: 2, segments: 1 });
    let mut seg = top_docs.for_segment(0);
    {
        let cache = top_docs.segment_cache(0);
        for (doc, score) in [(0u32, 10u64), (1, 40), (2, 99), (3, 98)] {
            seg.collect(cache, doc, score);
        }
    }
    // only the first two documents were considered
    let scores: Vec<u64> = seg.harvest().iter().map(|d| d.score).collect();
    assert_eq!(scores, vec![40, 10]);
}

use searchrank::signal::FieldBoost;
use searchrank::signal::recognized_boosts;
use searchrank::signal::recognized_coefficients;
use searchrank::signal::SignalCoefficient;
use searchrank::signal::TextField;
use searchrank::similar_sites::InboundSimilarity;
use searchrank::similar_sites::SimilarSitesFinder;
use searchrank::signal::Signal;
use searchrank::webgraph::Webgraph;

fn sample_graph() -> (Webgraph, u64, u64, u64, u64, u64) {
    let mut g = Webgraph::new();
    let seed = g.add_node("seed.com".to_string());
    let hub = g.add_node("hub.com".to_string());
    let cand_a = g.add_node("a.com".to_string());
    let cand_b = g.add_node("b.com".to_string());
    let cand_c = g.add_node("c.com".to_string());
    // the hub links to the seed and to the three candidates
    assert!(g.add_edge(hub, seed));
    assert!(g.add_edge(hub, cand_a));
    assert!(g.add_edge(hub, cand_b));
    assert!(g.add_edge(hub, cand_c));
    (g, seed, hub, cand_a, cand_b, cand_c)
}

#[test]
fn similar_sites_sorted_and_limited() {
    let (g, seed, _hub, a, b, c) = sample_graph();
    let mut model = InboundSimilarity::new();
    assert!(model.add_affinity(seed, a, 30));
    assert!(model.add_affinity(seed, b, 50));
    assert!(model.add_affinity(seed, c, 10));

    let finder = SimilarSitesFinder::new(g, model);
    let seeds = vec!["https://seed.com/".to_string()];

    let top = finder.find_similar_sites(&seeds, 2);
    assert_eq!(top.len(), 2);
    assert_eq!(top[0].node, "b.com".to_string());
    assert_eq!(top[0].score, 50);
    assert_eq!(top[1].node, "a.com".to_string());
    assert_eq!(top[1].score, 30);

    let all = finder.find_similar_sites(&seeds, 50);
    // the candidates are exactly the hub's four out-targets
    assert_eq!(all.len(), 4);
    for w in all.windows(2) {
        assert!(w[0].score >= w[1].score);
    }
    assert_eq!(all[0].node, "b.com".to_string());
    assert_eq!(all[3].score, 0);
}

#[test]
fn unknown_seed_contributes_nothing() {
    let (g, _seed, _hub, _a, _b, _c) = sample_graph();
    let model = InboundSimilarity::new();
    let finder = SimilarSitesFinder::new(g, model);
    let found = finder.find_similar_sites(&vec!["https://nowhere.example/".to_string()], 10);
    assert_eq!(found.len(), 0);
}

#[test]
fn knows_about_goes_through_the_model() {
    let (g, seed, _hub, a, _b, _c) = sample_graph();
    let mut model = InboundSimilarity::new();
    model.add_known(a);
    let finder = SimilarSitesFinder::new(g, model);
    assert!(finder.knows_about(&"a.com".to_string()));
    assert!(!finder.knows_about(&"seed.com".to_string()));
    let _ = seed;
}

#[test]
fn graph_rejects_edges_to_unknown_nodes() {
    let mut g = Webgraph::new();
    let n = g.add_node("x.com".to_string());
    assert!(!g.add_edge(n, n + 7));
    assert!(g.add_edge(n, n));
}

#[test]
fn signal_names() {
    assert_eq!(Signal::from_string("bm25".to_string()), Some(Signal::Bm25));
    assert_eq!(
        Signal::from_string("host_centrality".to_string()),
        Some(Signal::HostCentrality)
    );
    assert_eq!(Signal::from_string("page_rank".to_string()), None);
}

#[test]
fn signal_catalogue() {
    let all = Signal::all();
    assert_eq!(all.len(), 8);
    assert!(!all[0].is_computable_before_search());
    for s in all.iter().skip(1) {
        assert!(s.is_computable_before_search());
    }
    assert_eq!(Signal::Bm25.default_coefficient(), 1_000);
    assert_eq!(Signal::HostCentrality.default_coefficient(), 2_048_000);
    assert_eq!(Signal::Bm25.as_fastfield(), None);
}

#[test]
fn coefficient_overrides_fall_back_to_defaults() {
    let coeffs = SignalCoefficient::new(vec![(Signal::Bm25, 3_000)]);
    assert_eq!(coeffs.get(&Signal::Bm25), 3_000);
    assert_eq!(coeffs.get(&Signal::HostCentrality), 2_048_000);
}

#[test]
fn affinity_overflow_is_refused() {
    let mut model = InboundSimilarity::new();
    assert!(model.add_affinity(0, 1, u64::MAX));
    assert!(!model.add_affinity(0, 2, 1));
}

#[test]
fn field_boosts_fall_back_to_static_default_then_one() {
    let boosts = FieldBoost::new(vec![(TextField::Title, 4_000)]);
    assert_eq!(boosts.get(&TextField::Title), 4_000);
    assert_eq!(boosts.get(&TextField::CleanBody), 1_000);
    assert_eq!(boosts.get(&TextField::Site), 2_000);
}

#[test]
fn alteration_names_are_recognized_in_order() {
    let coeffs = recognized_coefficients(&vec![
        ("bm25".to_string(), 2_000),
        ("page_rank".to_string(), 9_000),
        ("host_centrality".to_string(), 7_000),
    ]);
    assert_eq!(
        coeffs,
        vec![(Signal::Bm25, 2_000), (Signal::HostCentrality, 7_000)]
    );
    let boosts = recognized_boosts(&vec![
        ("title".to_string(), 5_000),
        ("backlinks".to_string(), 1),
    ]);
    assert_eq!(boosts, vec![(TextField::Title, 5_000)]);
}

//! Similar-hosts discovery over the web graph.
//!
//! Given seed host URLs, the finder resolves them to graph nodes, walks
//! the inbound edges of every seed to gather backlink sources, collects
//! every target those sources link out to as candidates, scores each
//! candidate with the inbound-similarity model, and returns the best
//! `min(limit, 1000)` hosts in descending score order.
//!
//! The inbound-similarity model is a table of weighted `(seed, node)`
//! affinities: a scorer built from seed sets scores a node as the weight
//! it shares with the positive seeds minus what it shares with the
//! negative ones, floored at zero.

use vstd::prelude::*;
use crate::sorting::sort_pairs_desc;
use crate::sorting::sorted_desc;
use crate::webgraph::into_host;
use crate::webgraph::Webgraph;
use crate::webgraph::host_part;

verus! {

broadcast use vstd::seq_lib::group_seq_properties,
    vstd::multiset::group_multiset_axioms,
    vstd::set::group_set_axioms;

/// Hard cap on how many similar sites one query may return.
pub const MAX_SIMILAR_SITES: usize = 1_000;

/// A host together with its similarity score (fixed-point units).
#[derive(Clone, Debug)]
pub struct ScoredNode {
    pub node: String,
    pub score: u64,
}

/// Total weight of an affinity table.
pub open spec fn weight_sum(pairs: Seq<(u64, u64, u64)>) -> int
    decreases pairs.len(),
{
    if pairs.len() == 0 {
        0
    } else {
        weight_sum(pairs.drop_last()) + pairs.last().2 as int
    }
}

/// Weight that `t` shares with the given seed set.
pub open spec fn seed_score(pairs: Seq<(u64, u64, u64)>, seeds: Seq<u64>, t: u64) -> int
    decreases pairs.len(),
{
    if pairs.len() == 0 {
        0
    } else {
        seed_score(pairs.drop_last(), seeds, t) + if pairs.last().1 == t && seeds.contains(
            pairs.last().0,
        ) {
            pairs.last().2 as int
        } else {
            0
        }
    }
}

/// What a scorer over `pairs` gives node `t`: positive-seed weight minus
/// negative-seed weight, floored at zero.
pub open spec fn sim_score(
    pairs: Seq<(u64, u64, u64)>,
    positive: Seq<u64>,
    negative: Seq<u64>,
    t: u64,
) -> int {
    let raw = seed_score(pairs, positive, t) - seed_score(pairs, negative, t);
    if raw < 0 {
        0
    } else {
        raw
    }
}

/// A node's share never exceeds the table's total weight.
proof fn lemma_seed_score_bounds(pairs: Seq<(u64, u64, u64)>, seeds: Seq<u64>, t: u64)
    ensures
        0 <= seed_score(pairs, seeds, t) <= weight_sum(pairs),
    decreases pairs.len(),
{
    if pairs.len() > 0 {
        lemma_seed_score_bounds(pairs.drop_last(), seeds, t);
    }
}

/// Inbound-similarity model: a weighted affinity table plus the set of
/// nodes the model knows about.
pub struct InboundSimilarity {
    pairs: Vec<(u64, u64, u64)>,
    known: Vec<u64>,
    total_weight: u64,
}

impl InboundSimilarity {
    /// The affinity table.
    pub closed spec fn pairs_spec(self) -> Seq<(u64, u64, u64)> {
        self.pairs@
    }

    /// The nodes the model knows about.
    pub closed spec fn known_spec(self) -> Seq<u64> {
        self.known@
    }

    /// The running total equals the table's weight, so no score can
    /// overflow.
    pub closed spec fn wf(self) -> bool {
        self.total_weight == weight_sum(self.pairs@)
    }

    /// An empty model.
    pub fn new() -> (m: Self)
        ensures
            m.wf(),
            m.pairs_spec() =~= Seq::<(u64, u64, u64)>::empty(),
            m.known_spec() =~= Seq::<u64>::empty(),
    {
        InboundSimilarity { pairs: Vec::new(), known: Vec::new(), total_weight: 0 }
    }

    /// Records that `node` shares `weight` of inbound affinity with
    /// `seed`; refused when the table's total weight would overflow.
    pub fn add_affinity(&mut self, seed: u64, node: u64, weight: u64) -> (ok: bool)
        requires
            old(self).wf(),
        ensures
            final(self).wf(),
            final(self).known_spec() == old(self).known_spec(),
            ok == (weight_sum(old(self).pairs_spec()) + weight <= u64::MAX),
            if ok {
                final(self).pairs_spec() == old(self).pairs_spec().push((seed, node, weight))
            } else {
                final(self).pairs_spec() == old(self).pairs_spec()
            },
    {
        proof {
            lemma_seed_score_bounds(self.pairs@, Seq::empty(), 0);
        }
        if weight <= u64::MAX - self.total_weight {
            self.pairs.push((seed, node, weight));
            self.total_weight = self.total_weight + weight;
            proof {
                assert(self.pairs@.drop_last() =~= old(self).pairs@);
            }
            true
        } else {
            false
        }
    }

    /// Marks `node` as known to the model.
    pub fn add_known(&mut self, node: u64)
        requires
            old(self).wf(),
        ensures
            final(self).wf(),
            final(self).pairs_spec() == old(self).pairs_spec(),
            final(self).known_spec() == old(self).known_spec().push(node),
    {
        self.known.push(node);
    }

    /// Whether the model knows about `node`.
    pub fn knows_about(&self, node: u64) -> (r: bool)
        ensures
            r == self.known_spec().contains(node),
    {
        contains_u64(&self.known, node)
    }

    /// Builds a scorer for the given positive and negative seed sets.
    pub fn scorer(&self, positive: &Vec<u64>, negative: &Vec<u64>) -> (s: Scorer)
        requires
            self.wf(),
        ensures
            s.wf(),
            s.pairs_spec() == self.pairs_spec(),
            s.positive_spec() == positive@,
            s.negative_spec() == negative@,
    {
        Scorer {
            pairs: copy_pairs(&self.pairs),
            positive: copy_u64s(positive),
            negative: copy_u64s(negative),
            total_weight: self.total_weight,
        }
    }
}

/// Scores nodes by inbound affinity with fixed seed sets.
pub struct Scorer {
    pairs: Vec<(u64, u64, u64)>,
    positive: Vec<u64>,
    negative: Vec<u64>,
    total_weight: u64,
}

impl Scorer {
    /// The affinity table.
    pub closed spec fn pairs_spec(self) -> Seq<(u64, u64, u64)> {
        self.pairs@
    }

    /// The positive seed set.
    pub closed spec fn positive_spec(self) -> Seq<u64> {
        self.positive@
    }

    /// The negative seed set.
    pub closed spec fn negative_spec(self) -> Seq<u64> {
        self.negative@
    }

    /// See [`InboundSimilarity::wf`].
    pub closed spec fn wf(self) -> bool {
        self.total_weight == weight_sum(self.pairs@)
    }

    /// The score of `node`: shared positive weight minus shared negative
    /// weight, floored at zero.
    pub fn score(&self, node: u64) -> (r: u64)
        requires
            self.wf(),
        ensures
            r == sim_score(self.pairs_spec(), self.positive_spec(), self.negative_spec(), node),
    {
        let pos = self.seed_weight(&self.positive, node);
        let neg = self.seed_weight(&self.negative, node);
        if pos > neg {
            pos - neg
        } else {
            0
        }
    }

    /// Sums the weight `node` shares with `seeds`.
    fn seed_weight(&self, seeds: &Vec<u64>, node: u64) -> (r: u64)
        requires
            self.wf(),
        ensures
            r == seed_score(self.pairs_spec(), seeds@, node),
    {
        let mut acc: u64 = 0;
        let mut i: usize = 0;
        while i < self.pairs.len()
            invariant
                i <= self.pairs@.len(),
                self.wf(),
                acc == seed_score(self.pairs@.take(i as int), seeds@, node),
                acc <= weight_sum(self.pairs@.take(i as int)),
                weight_sum(self.pairs@.take(i as int)) + weight_sum(self.pairs@.skip(i as int))
                    == weight_sum(self.pairs@),
            decreases self.pairs@.len() - i,
        {
            let p = self.pairs[i];
            proof {
                assert(self.pairs@.take(i + 1).drop_last() =~= self.pairs@.take(i as int));
                assert(self.pairs@.take(i + 1).last() == p);
                lemma_weight_sum_split(self.pairs@, i as int);
                lemma_weight_sum_split(self.pairs@, i + 1);
                lemma_seed_score_bounds(self.pairs@.take(i + 1), seeds@, node);
            }
            if p.1 == node && contains_u64(seeds, p.0) {
                proof {
                    lemma_weight_sum_nonneg(self.pairs@.skip(i + 1));
                }
                acc = acc + p.2;
            }
            i = i + 1;
        }
        proof {
            assert(self.pairs@.take(self.pairs@.len() as int) =~= self.pairs@);
        }
        acc
    }
}

/// Splitting an affinity table splits its weight.
proof fn lemma_weight_sum_split(pairs: Seq<(u64, u64, u64)>, i: int)
    requires
        0 <= i <= pairs.len(),
    ensures
        weight_sum(pairs.take(i)) + weight_sum(pairs.skip(i)) == weight_sum(pairs),
    decreases pairs.len(),
{
    if i == pairs.len() {
        assert(pairs.take(i) =~= pairs);
        assert(pairs.skip(i) =~= Seq::empty());
    } else {
        let p = pairs.drop_last();
        lemma_weight_sum_split(p, i);
        assert(pairs.take(i) =~= p.take(i));
        assert(pairs.skip(i).drop_last() =~= p.skip(i));
        assert(weight_sum(pairs.skip(i)) == weight_sum(p.skip(i)) + pairs.last().2);
    }
}

/// Weights are nonnegative.
proof fn lemma_weight_sum_nonneg(pairs: Seq<(u64, u64, u64)>)
    ensures
        weight_sum(pairs) >= 0,
    decreases pairs.len(),
{
    if pairs.len() > 0 {
        lemma_weight_sum_nonneg(pairs.drop_last());
    }
}

/// Linear membership test.
fn contains_u64(v: &Vec<u64>, x: u64) -> (r: bool)
    ensures
        r == v@.contains(x),
{
    let mut i: usize = 0;
    while i < v.len()
        invariant
            i <= v@.len(),
            forall|k: int| #![trigger v@[k]] 0 <= k < i ==> v@[k] != x,
        decreases v@.len() - i,
    {
        if v[i] == x {
            return true;
        }
        i = i + 1;
    }
    false
}

/// Copies a table of affinity rows.
fn copy_pairs(v: &Vec<(u64, u64, u64)>) -> (r: Vec<(u64, u64, u64)>)
    ensures
        r@ == v@,
{
    let mut r: Vec<(u64, u64, u64)> = Vec::new();
    let mut i: usize = 0;
    while i < v.len()
        invariant
            i <= v@.len(),
            r@ =~= v@.take(i as int),
        decreases v@.len() - i,
    {
        r.push(v[i]);
        i = i + 1;
    }
    proof {
        assert(v@.take(v@.len() as int) =~= v@);
    }
    r
}

/// Copies a list of node ids.
fn copy_u64s(v: &Vec<u64>) -> (r: Vec<u64>)
    ensures
        r@ == v@,
{
    let mut r: Vec<u64> = Vec::new();
    let mut i: usize = 0;
    while i < v.len()
        invariant
            i <= v@.len(),
            r@ =~= v@.take(i as int),
        decreases v@.len() - i,
    {
        r.push(v[i]);
        i = i + 1;
    }
    proof {
        assert(v@.take(v@.len() as int) =~= v@);
    }
    r
}

/// `id` is what some seed URL resolves to.
pub open spec fn resolves_to(g: Webgraph, url: Seq<char>, id: u64) -> bool {
    id < g.node_count() && g.host_of(id) == host_part(url)
}

/// `id` is the node of one of the seed URLs.
pub open spec fn is_seed_id(g: Webgraph, urls: Seq<String>, id: u64) -> bool {
    exists|j: int| 0 <= j < urls.len() && resolves_to(g, urls[j]@, id)
}

/// `src` links to at least one seed.
pub open spec fn is_backlink_source(g: Webgraph, urls: Seq<String>, src: u64) -> bool {
    exists|id: u64| #[trigger] is_seed_id(g, urls, id) && g.in_sources(id).contains(src)
}

/// `t` is a candidate: some backlink source links out to it.
pub open spec fn is_potential(g: Webgraph, urls: Seq<String>, t: u64) -> bool {
    exists|src: u64| #[trigger] is_backlink_source(g, urls, src) && g.out_targets(src).contains(t)
}

/// The id the graph gives a host, when it knows the host. With the
/// graph's unique-hosts invariant this is the one node of that host.
pub open spec fn host_id(g: Webgraph, host: Seq<char>) -> Option<u64> {
    if exists|id: u64| id < g.node_count() && #[trigger] g.host_of(id) == host {
        Some(choose|id: u64| id < g.node_count() && #[trigger] g.host_of(id) == host)
    } else {
        None
    }
}

/// The node ids the seed URLs resolve to, in order; a URL whose host the
/// graph does not know contributes nothing.
pub open spec fn resolved_seeds(g: Webgraph, urls: Seq<String>) -> Seq<u64>
    decreases urls.len(),
{
    if urls.len() == 0 {
        Seq::empty()
    } else {
        resolved_seeds(g, urls.drop_last()) + match host_id(g, host_part(urls.last()@)) {
            Some(id) => seq![id],
            None => Seq::<u64>::empty(),
        }
    }
}

/// The deduplicated candidate set of a query.
pub open spec fn candidate_set(g: Webgraph, urls: Seq<String>) -> Set<u64> {
    Set::new(|t: u64| is_potential(g, urls, t))
}

/// Every node a seed URL resolves to stands in the resolved seed list.
proof fn lemma_resolved_seeds_complete(g: Webgraph, urls: Seq<String>, j: int, id: u64)
    requires
        g.wf(),
        0 <= j < urls.len(),
        resolves_to(g, urls[j]@, id),
    ensures
        resolved_seeds(g, urls).contains(id),
    decreases urls.len(),
{
    let host = host_part(urls.last()@);
    let prefix = resolved_seeds(g, urls.drop_last());
    if j == urls.len() - 1 {
        assert(g.host_of(id) == host);
        let c = choose|n: u64| n < g.node_count() && #[trigger] g.host_of(n) == host;
        assert(g.host_of(c) == host);
        g.lemma_hosts_unique(c, id);
        assert(resolved_seeds(g, urls) =~= prefix + seq![id]);
        assert(resolved_seeds(g, urls)[prefix.len() as int] == id);
    } else {
        assert(urls.drop_last()[j] == urls[j]);
        lemma_resolved_seeds_complete(g, urls.drop_last(), j, id);
        let m = choose|m: int| 0 <= m < prefix.len() && prefix[m] == id;
        assert(resolved_seeds(g, urls)[m] == id);
    }
}

/// Some pair of the count table carries this key.
pub open spec fn has_key(counts: Seq<(u64, u64)>, src: u64) -> bool {
    exists|k: int| 0 <= k < counts.len() && counts[k].0 == src
}

/// Some pair of the list carries this node in its payload position.
pub open spec fn has_source(pairs: Seq<(u64, u64)>, src: u64) -> bool {
    exists|k: int| 0 <= k < pairs.len() && pairs[k].1 == src
}

/// Some returned entry shows the host of node `t`.
pub open spec fn represented(g: Webgraph, r: Seq<ScoredNode>, t: u64) -> bool {
    exists|i: int| 0 <= i < r.len() && r[i].node@ == g.host_of(t)
}

/// Scoring is idempotent: a scorer's result is a pure function of its
/// table, its seed sets and the node, so scoring the same node twice
/// gives the same value.
pub proof fn lemma_score_idempotent(
    pairs: Seq<(u64, u64, u64)>,
    positive: Seq<u64>,
    negative: Seq<u64>,
    t: u64,
    r1: int,
    r2: int,
)
    requires
        r1 == sim_score(pairs, positive, negative, t),
        r2 == sim_score(pairs, positive, negative, t),
    ensures
        r1 == r2,
{
}

/// Every seed is a node some seed URL resolves to, and every result is
/// a candidate host carrying its exact model score against the seed
/// set.
pub open spec fn results_from_seeds(
    g: Webgraph,
    pairs: Seq<(u64, u64, u64)>,
    urls: Seq<String>,
    seeds: Seq<u64>,
    r: Seq<ScoredNode>,
) -> bool {
    &&& forall|k: int| #![trigger seeds[k]] 0 <= k < seeds.len()
        ==> is_seed_id(g, urls, seeds[k])
    &&& forall|i: int| #![trigger r[i]] 0 <= i < r.len() ==> exists|t: u64|
        #[trigger] is_potential(g, urls, t) && r[i].node@ == g.host_of(t) && r[i].score
            == sim_score(pairs, seeds, Seq::<u64>::empty(), t)
}

/// Finds hosts similar to a set of seed hosts.
pub struct SimilarSitesFinder {
    webgraph: Webgraph,
    inbound_similarity: InboundSimilarity,
}

impl SimilarSitesFinder {
    /// The graph the finder walks.
    pub closed spec fn graph(self) -> Webgraph {
        self.webgraph
    }

    /// The similarity model the finder scores with.
    pub closed spec fn model(self) -> InboundSimilarity {
        self.inbound_similarity
    }

    /// Both collaborators are internally consistent.
    pub open spec fn wf(self) -> bool {
        self.graph().wf() && self.model().wf()
    }

    /// Pairs a web graph with an inbound-similarity model.
    pub fn new(webgraph: Webgraph, inbound_similarity: InboundSimilarity) -> (f: Self)
        ensures
            f.graph() == webgraph,
            f.model() == inbound_similarity,
    {
        SimilarSitesFinder { webgraph, inbound_similarity }
    }

    /// Whether the similarity model knows the given host.
    pub fn knows_about(&self, node: &String) -> (r: bool)
        requires
            self.wf(),
        ensures
            r == exists|id: u64|
                #![trigger self.graph().host_of(id)]
                id < self.graph().node_count() && self.graph().host_of(id) == node@
                    && self.model().known_spec().contains(id),
    {
        match self.webgraph.node_id(node) {
            Some(id) => {
                let k = self.inbound_similarity.knows_about(id);
                proof {
                    assert(self.graph().host_of(id) == node@);
                    // hosts are unique, so any witness must be this id
                    assert forall|id2: u64|
                        id2 < self.graph().node_count() && #[trigger] self.graph().host_of(id2)
                            == node@ implies id2 == id by {
                        self.graph().lemma_hosts_unique(id, id2);
                    }
                }
                k
            }
            None => false,
        }
    }

    /// Returns the best-scoring candidate hosts, in descending score
    /// order: of the candidates (out-neighbours of backlink sources of
    /// the resolved seeds), the `min(limit, 1000)` with the highest
    /// model score, each carrying its exact score against the resolved
    /// seed set; every candidate left out scores no higher than the last
    /// one returned.
    #[verifier::rlimit(100)]
    pub fn find_similar_sites(&self, nodes: &Vec<String>, limit: usize) -> (r: Vec<ScoredNode>)
        requires
            self.wf(),
        ensures
            ({
                let cap: int = if limit < MAX_SIMILAR_SITES {
                    limit as int
                } else {
                    MAX_SIMILAR_SITES as int
                };
                let n_c: int = candidate_set(self.graph(), nodes@).len() as int;
                r@.len() == if n_c < cap { n_c } else { cap }
            }),
            candidate_set(self.graph(), nodes@).finite(),
            forall|i: int, j: int| #![trigger r@[i], r@[j]] 0 <= i < j < r@.len()
                ==> r@[i].score >= r@[j].score,
            results_from_seeds(
                self.graph(),
                self.model().pairs_spec(),
                nodes@,
                resolved_seeds(self.graph(), nodes@),
                r@,
            ),
            forall|t: u64|
                #[trigger] is_potential(self.graph(), nodes@, t) && !represented(
                    self.graph(),
                    r@,
                    t,
                ) && r@.len() > 0 ==> sim_score(
                    self.model().pairs_spec(),
                    resolved_seeds(self.graph(), nodes@),
                    Seq::<u64>::empty(),
                    t,
                ) <= r@[r@.len() - 1].score,
    {
        let limit = if limit < MAX_SIMILAR_SITES {
            limit
        } else {
            MAX_SIMILAR_SITES
        };

        // resolve the seed URLs to node ids
        let mut ids: Vec<u64> = Vec::new();
        let mut i: usize = 0;
        while i < nodes.len()
            invariant
                i <= nodes@.len(),
                self.wf(),
                ids@ =~= resolved_seeds(self.graph(), nodes@.take(i as int)),
                forall|k: int| #![trigger ids@[k]] 0 <= k < ids@.len()
                    ==> is_seed_id(self.graph(), nodes@, ids@[k]),
            decreases nodes@.len() - i,
        {
            let host = into_host(&nodes[i]);
            proof {
                assert(nodes@.take(i + 1).drop_last() =~= nodes@.take(i as int));
                assert(nodes@.take(i + 1).last() == nodes@[i as int]);
            }
            match self.webgraph.node_id(&host) {
                Some(id) => {
                    proof {
                        assert(resolves_to(self.graph(), nodes@[i as int]@, id));
                        // the graph knows this host by exactly one node
                        let h = host_part(nodes@[i as int]@);
                        assert(self.graph().host_of(id) == h);
                        let c = choose|n: u64|
                            n < self.graph().node_count() && #[trigger] self.graph().host_of(n)
                                == h;
                        assert(self.graph().host_of(c) == h);
                        self.graph().lemma_hosts_unique(c, id);
                        assert(host_id(self.graph(), h) == Some(id));
                        assert(ids@.push(id) =~= resolved_seeds(
                            self.graph(),
                            nodes@.take(i + 1),
                        ));
                    }
                    ids.push(id);
                }
                None => {
                    proof {
                        let h = host_part(nodes@[i as int]@);
                        assert(host_id(self.graph(), h) is None) by {
                            if exists|n: u64|
                                n < self.graph().node_count()
                                    && #[trigger] self.graph().host_of(n) == h {
                                let n = choose|n: u64|
                                    n < self.graph().node_count()
                                        && #[trigger] self.graph().host_of(n) == h;
                                assert(self.graph().host_of(n) != h);
                            }
                        }
                        assert(ids@ =~= resolved_seeds(self.graph(), nodes@.take(i + 1)));
                    }
                }
            }
            i = i + 1;
        }
        proof {
            assert(nodes@.take(nodes@.len() as int) =~= nodes@);
            assert(ids@ =~= resolved_seeds(self.graph(), nodes@));
        }

        let scorer = self.inbound_similarity.scorer(&ids, &Vec::new());
        let ghost seeds = ids@;

        // count backlinks per source over all seeds
        let mut counts: Vec<(u64, u64)> = Vec::new();
        let mut i2: usize = 0;
        while i2 < ids.len()
            invariant
                i2 <= ids@.len(),
                self.wf(),
                forall|k: int| #![trigger ids@[k]] 0 <= k < ids@.len()
                    ==> is_seed_id(self.graph(), nodes@, ids@[k]),
                forall|k: int| #![trigger counts@[k]] 0 <= k < counts@.len()
                    ==> is_backlink_source(self.graph(), nodes@, counts@[k].0),
                forall|j: int, k: int|
                    #![trigger self.graph().in_sources(ids@[j])[k]]
                    0 <= j < i2 && 0 <= k < self.graph().in_sources(ids@[j]).len()
                        ==> has_key(counts@, self.graph().in_sources(ids@[j])[k]),
            decreases ids@.len() - i2,
        {
            let edges = self.webgraph.raw_ingoing_edges(ids[i2]);
            proof {
                assert forall|k: int| 0 <= k < edges@.len()
                    implies self.graph().in_sources(ids@[i2 as int]).contains(
                        edges@[k].from,
                    ) by {
                    assert(edges@[k].from == self.graph().in_sources(ids@[i2 as int])[k]);
                }
            }
            let mut e: usize = 0;
            while e < edges.len()
                invariant
                    e <= edges@.len(),
                    self.wf(),
                    i2 < ids@.len(),
                    edges@.len() == self.graph().in_sources(ids@[i2 as int]).len(),
                    forall|k: int| #![trigger ids@[k]] 0 <= k < ids@.len()
                        ==> is_seed_id(self.graph(), nodes@, ids@[k]),
                    forall|k: int| #![trigger edges@[k]] 0 <= k < edges@.len()
                        ==> edges@[k].from == self.graph().in_sources(ids@[i2 as int])[k],
                    forall|k: int| #![trigger counts@[k]] 0 <= k < counts@.len()
                        ==> is_backlink_source(self.graph(), nodes@, counts@[k].0),
                    forall|j: int, k: int|
                        #![trigger self.graph().in_sources(ids@[j])[k]]
                        0 <= j < i2 && 0 <= k < self.graph().in_sources(ids@[j]).len()
                            ==> has_key(counts@, self.graph().in_sources(ids@[j])[k]),
                    forall|k: int|
                        #![trigger self.graph().in_sources(ids@[i2 as int])[k]]
                        0 <= k < e
                            ==> has_key(
                                counts@,
                                self.graph().in_sources(ids@[i2 as int])[k],
                            ),
                decreases edges@.len() - e,
            {
                let src = edges[e].from;
                proof {
                    assert(is_seed_id(self.graph(), nodes@, ids@[i2 as int]));
                    assert(self.graph().in_sources(ids@[i2 as int]).contains(src));
                    assert(is_backlink_source(self.graph(), nodes@, src));
                }
                bump_count(&mut counts, src);
                e = e + 1;
            }
            proof {
                assert forall|j: int, k: int|
                    #![trigger self.graph().in_sources(ids@[j])[k]]
                    0 <= j < i2 + 1 && 0 <= k < self.graph().in_sources(ids@[j]).len()
                    implies has_key(counts@, self.graph().in_sources(ids@[j])[k]) by {
                }
            }
            i2 = i2 + 1;
        }
        proof {
            // every backlink source of the query is counted
            assert forall|src: u64| #[trigger] is_backlink_source(self.graph(), nodes@, src)
                implies has_key(counts@, src) by {
                let id = choose|id: u64|
                    #[trigger] is_seed_id(self.graph(), nodes@, id) && self.graph().in_sources(
                        id,
                    ).contains(src);
                let j0 = choose|j0: int|
                    0 <= j0 < nodes@.len() && resolves_to(self.graph(), nodes@[j0]@, id);
                lemma_resolved_seeds_complete(self.graph(), nodes@, j0, id);
                assert(ids@.contains(id));
                let jj = choose|jj: int| 0 <= jj < ids@.len() && ids@[jj] == id;
                let k = choose|k: int|
                    0 <= k < self.graph().in_sources(id).len() && self.graph().in_sources(
                        id,
                    )[k] == src;
                assert(has_key(counts@, self.graph().in_sources(ids@[jj])[k]));
            }
        }

        // traverse backlink sources in descending count order
        let mut by_count: Vec<(u64, u64)> = Vec::new();
        let mut i3: usize = 0;
        while i3 < counts.len()
            invariant
                i3 <= counts@.len(),
                by_count@.len() == i3,
                forall|k: int| #![trigger by_count@[k]] 0 <= k < i3
                    ==> by_count@[k] == (counts@[k].1, counts@[k].0),
            decreases counts@.len() - i3,
        {
            let c = counts[i3];
            by_count.push((c.1, c.0));
            i3 = i3 + 1;
        }
        let top_backlink_nodes = sort_pairs_desc(by_count);
        proof {
            assert forall|k: int| 0 <= k < top_backlink_nodes@.len()
                implies is_backlink_source(
                    self.graph(),
                    nodes@,
                    top_backlink_nodes@[k].1,
                ) by {
                top_backlink_nodes@.to_multiset_ensures();
                by_count@.to_multiset_ensures();
                assert(top_backlink_nodes@.contains(top_backlink_nodes@[k]));
                assert(top_backlink_nodes@.to_multiset().count(top_backlink_nodes@[k]) > 0);
                assert(by_count@.contains(top_backlink_nodes@[k]));
                let j = choose|j: int|
                    0 <= j < by_count@.len() && by_count@[j] == top_backlink_nodes@[k];
                assert(by_count@[j].1 == counts@[j].0);
            }
            // every counted source survives the sort
            assert forall|src: u64| #[trigger] has_key(counts@, src)
                implies has_source(top_backlink_nodes@, src) by {
                top_backlink_nodes@.to_multiset_ensures();
                by_count@.to_multiset_ensures();
                let m = choose|m: int| 0 <= m < counts@.len() && counts@[m].0 == src;
                assert(by_count@[m] == (counts@[m].1, counts@[m].0));
                assert(by_count@.contains(by_count@[m]));
                assert(by_count@.to_multiset().count(by_count@[m]) > 0);
                assert(top_backlink_nodes@.contains(by_count@[m]));
                let k2 = choose|k2: int|
                    0 <= k2 < top_backlink_nodes@.len() && top_backlink_nodes@[k2]
                        == by_count@[m];
                assert(top_backlink_nodes@[k2].1 == src);
            }
        }

        // gather the deduplicated candidate set
        let mut potential: Vec<u64> = Vec::new();
        let mut i4: usize = 0;
        while i4 < top_backlink_nodes.len()
            invariant
                i4 <= top_backlink_nodes@.len(),
                self.wf(),
                forall|k: int| #![trigger top_backlink_nodes@[k]]
                    0 <= k < top_backlink_nodes@.len()
                        ==> is_backlink_source(self.graph(), nodes@, top_backlink_nodes@[k].1),
                forall|k: int| #![trigger potential@[k]] 0 <= k < potential@.len()
                    ==> is_potential(self.graph(), nodes@, potential@[k])
                        && potential@[k] < self.graph().node_count(),
                potential@.no_duplicates(),
                forall|k2: int, e2: int|
                    #![trigger self.graph().out_targets(top_backlink_nodes@[k2].1)[e2]]
                    0 <= k2 < i4 && 0 <= e2 < self.graph().out_targets(
                        top_backlink_nodes@[k2].1,
                    ).len() ==> potential@.contains(
                        self.graph().out_targets(top_backlink_nodes@[k2].1)[e2],
                    ),
            decreases top_backlink_nodes@.len() - i4,
        {
            let src = top_backlink_nodes[i4].1;
            let out_edges = self.webgraph.raw_outgoing_edges(src);
            proof {
                assert forall|k: int| 0 <= k < out_edges@.len()
                    implies out_edges@[k].to < self.graph().node_count()
                        && self.graph().out_targets(src).contains(out_edges@[k].to) by {
                    assert(out_edges@[k].to == self.graph().out_targets(src)[k]);
                }
            }
            let mut e: usize = 0;
            while e < out_edges.len()
                invariant
                    e <= out_edges@.len(),
                    self.wf(),
                    i4 < top_backlink_nodes@.len(),
                    src == top_backlink_nodes@[i4 as int].1,
                    is_backlink_source(self.graph(), nodes@, src),
                    out_edges@.len() == self.graph().out_targets(src).len(),
                    forall|k: int| #![trigger out_edges@[k]] 0 <= k < out_edges@.len()
                        ==> out_edges@[k].to < self.graph().node_count()
                            && out_edges@[k].to == self.graph().out_targets(src)[k],
                    forall|k: int| #![trigger potential@[k]] 0 <= k < potential@.len()
                        ==> is_potential(self.graph(), nodes@, potential@[k])
                            && potential@[k] < self.graph().node_count(),
                    potential@.no_duplicates(),
                    forall|k2: int, e2: int|
                        #![trigger self.graph().out_targets(top_backlink_nodes@[k2].1)[e2]]
                        0 <= k2 < i4 && 0 <= e2 < self.graph().out_targets(
                            top_backlink_nodes@[k2].1,
                        ).len() ==> potential@.contains(
                            self.graph().out_targets(top_backlink_nodes@[k2].1)[e2],
                        ),
                    forall|e2: int|
                        #![trigger self.graph().out_targets(src)[e2]]
                        0 <= e2 < e ==> potential@.contains(
                            self.graph().out_targets(src)[e2],
                        ),
                decreases out_edges@.len() - e,
            {
                let t = out_edges[e].to;
                let ghost pre_pot = potential@;
                if !contains_u64(&potential, t) {
                    proof {
                        assert(self.graph().out_targets(src).contains(t));
                        assert(is_potential(self.graph(), nodes@, t));
                    }
                    potential.push(t);
                    proof {
                        assert(potential@.no_duplicates()) by {
                            assert forall|a: int, b: int|
                                0 <= a < b < potential@.len()
                                implies potential@[a] != potential@[b] by {
                                if b == potential@.len() - 1 {
                                    assert(pre_pot[a] == potential@[a]);
                                    assert(pre_pot.contains(potential@[a]));
                                }
                            }
                        }
                        assert forall|x: u64| #[trigger] pre_pot.contains(x)
                            implies potential@.contains(x) by {
                            let w = choose|w: int| 0 <= w < pre_pot.len() && pre_pot[w] == x;
                            assert(potential@[w] == x);
                        }
                        assert(potential@.contains(t));
                    }
                }
                proof {
                    assert(potential@.contains(self.graph().out_targets(src)[e as int]));
                }
                e = e + 1;
            }
            proof {
                assert forall|k2: int, e2: int|
                    #![trigger self.graph().out_targets(top_backlink_nodes@[k2].1)[e2]]
                    0 <= k2 < i4 + 1 && 0 <= e2 < self.graph().out_targets(
                        top_backlink_nodes@[k2].1,
                    ).len() implies potential@.contains(
                        self.graph().out_targets(top_backlink_nodes@[k2].1)[e2],
                    ) by {
                }
            }
            i4 = i4 + 1;
        }
        proof {
            // every candidate of the query was gathered
            assert forall|t: u64| #[trigger] is_potential(self.graph(), nodes@, t)
                implies potential@.contains(t) by {
                let src = choose|src: u64|
                    #[trigger] is_backlink_source(self.graph(), nodes@, src)
                        && self.graph().out_targets(src).contains(t);
                assert(has_key(counts@, src));
                assert(has_source(top_backlink_nodes@, src));
                let k2 = choose|k2: int|
                    0 <= k2 < top_backlink_nodes@.len() && top_backlink_nodes@[k2].1 == src;
                let e2 = choose|e2: int|
                    0 <= e2 < self.graph().out_targets(src).len() && self.graph().out_targets(
                        src,
                    )[e2] == t;
                assert(potential@.contains(
                    self.graph().out_targets(top_backlink_nodes@[k2].1)[e2],
                ));
            }
        }

        // bounded top-`limit` selection by score
        let mut top: Vec<(u64, u64)> = Vec::new();
        let mut i5: usize = 0;
        while i5 < potential.len()
            invariant
                i5 <= potential@.len(),
                self.wf(),
                scorer.wf(),
                scorer.pairs_spec() == self.model().pairs_spec(),
                scorer.positive_spec() == seeds,
                scorer.negative_spec() == Seq::<u64>::empty(),
                top@.len() == if (i5 as int) < (limit as int) { i5 as int } else { limit as int },
                forall|k: int| #![trigger potential@[k]] 0 <= k < potential@.len()
                    ==> is_potential(self.graph(), nodes@, potential@[k])
                        && potential@[k] < self.graph().node_count(),
                forall|k: int| #![trigger top@[k]] 0 <= k < top@.len()
                    ==> is_potential(self.graph(), nodes@, top@[k].1)
                        && top@[k].1 < self.graph().node_count() && top@[k].0 == sim_score(
                        self.model().pairs_spec(),
                        seeds,
                        Seq::<u64>::empty(),
                        top@[k].1,
                    ),
                top@.len() < limit ==> forall|j: int| #![trigger potential@[j]] 0 <= j < i5
                    ==> has_source(top@, potential@[j]),
                top@.len() == limit ==> forall|j: int| #![trigger potential@[j]] 0 <= j < i5
                    ==> has_source(top@, potential@[j]) || (forall|m2: int|
                        #![trigger top@[m2]]
                        0 <= m2 < top@.len() ==> sim_score(
                            self.model().pairs_spec(),
                            seeds,
                            Seq::<u64>::empty(),
                            potential@[j],
                        ) <= top@[m2].0),
            decreases potential@.len() - i5,
        {
            let t = potential[i5];
            let s = scorer.score(t);
            let ghost pre_top = top@;
            if top.len() < limit {
                top.push((s, t));
                proof {
                    assert forall|x: u64| #[trigger] has_source(pre_top, x)
                        implies has_source(top@, x) by {
                        let w = choose|w: int| 0 <= w < pre_top.len() && pre_top[w].1 == x;
                        assert(top@[w].1 == x);
                    }
                    assert(top@[pre_top.len() as int].1 == t);
                    assert(has_source(top@, t));
                }
            } else if limit > 0 {
                // replace the current minimum if the new score beats it
                let mut m: usize = 0;
                let mut k: usize = 1;
                while k < top.len()
                    invariant
                        top@.len() > 0,
                        top@ == pre_top,
                        m < k <= top@.len(),
                        forall|j: int| #![trigger top@[j]] 0 <= j < k
                            ==> top@[m as int].0 <= top@[j].0,
                    decreases top@.len() - k,
                {
                    if top[k].0 < top[m].0 {
                        m = k;
                    }
                    k = k + 1;
                }
                let ghost mm = m as int;
                proof {
                    assert(forall|j: int| #![trigger pre_top[j]] 0 <= j < pre_top.len()
                        ==> pre_top[mm].0 <= pre_top[j].0);
                }
                if s > top[m].0 {
                    top.swap_remove(m);
                    top.push((s, t));
                    proof {
                        // the surviving entries are the old ones minus the
                        // dropped minimum, plus the newcomer
                        assert(top@[top@.len() - 1] == (s, t));
                        assert(has_source(top@, t));
                        assert forall|w: int| 0 <= w < pre_top.len() && w != mm
                            implies has_source(top@, pre_top[w].1)
                                && (exists|w2: int|
                                    0 <= w2 < top@.len() && top@[w2] == pre_top[w]) by {
                            if w == pre_top.len() - 1 {
                                assert(top@[mm] == pre_top[w]);
                            } else {
                                assert(top@[w] == pre_top[w]);
                            }
                        }
                        assert forall|m2: int| #![trigger top@[m2]] 0 <= m2 < top@.len()
                            implies pre_top[mm].0 <= top@[m2].0 by {
                            if m2 == top@.len() - 1 {
                            } else if m2 == mm {
                                assert(top@[m2] == pre_top[pre_top.len() - 1]);
                            } else {
                                assert(top@[m2] == pre_top[m2]);
                            }
                        }
                        assert forall|j: int| #![trigger potential@[j]] 0 <= j < i5 + 1
                            implies has_source(top@, potential@[j]) || (forall|m2: int|
                                #![trigger top@[m2]]
                                0 <= m2 < top@.len() ==> sim_score(
                                    self.model().pairs_spec(),
                                    seeds,
                                    Seq::<u64>::empty(),
                                    potential@[j],
                                ) <= top@[m2].0) by {
                            if j == i5 as int {
                            } else if has_source(pre_top, potential@[j]) {
                                let w = choose|w: int|
                                    0 <= w < pre_top.len() && pre_top[w].1 == potential@[j];
                                if w == mm {
                                    // its entry was the dropped minimum
                                    assert(sim_score(
                                        self.model().pairs_spec(),
                                        seeds,
                                        Seq::<u64>::empty(),
                                        potential@[j],
                                    ) == pre_top[mm].0);
                                } else {
                                    assert(has_source(top@, pre_top[w].1));
                                }
                            } else {
                                // was already below every old entry
                                assert forall|m2: int| #![trigger top@[m2]]
                                    0 <= m2 < top@.len() implies sim_score(
                                        self.model().pairs_spec(),
                                        seeds,
                                        Seq::<u64>::empty(),
                                        potential@[j],
                                    ) <= top@[m2].0 by {
                                    if m2 == top@.len() - 1 {
                                        assert(sim_score(
                                            self.model().pairs_spec(),
                                            seeds,
                                            Seq::<u64>::empty(),
                                            potential@[j],
                                        ) <= pre_top[mm].0);
                                    } else if m2 == mm {
                                        assert(top@[m2] == pre_top[pre_top.len() - 1]);
                                    } else {
                                        assert(top@[m2] == pre_top[m2]);
                                    }
                                }
                            }
                        }
                    }
                } else {
                    proof {
                        assert forall|j: int| #![trigger potential@[j]] 0 <= j < i5 + 1
                            implies has_source(top@, potential@[j]) || (forall|m2: int|
                                #![trigger top@[m2]]
                                0 <= m2 < top@.len() ==> sim_score(
                                    self.model().pairs_spec(),
                                    seeds,
                                    Seq::<u64>::empty(),
                                    potential@[j],
                                ) <= top@[m2].0) by {
                            if j == i5 as int {
                                assert forall|m2: int| #![trigger top@[m2]]
                                    0 <= m2 < top@.len() implies sim_score(
                                        self.model().pairs_spec(),
                                        seeds,
                                        Seq::<u64>::empty(),
                                        potential@[j],
                                    ) <= top@[m2].0 by {
                                    assert(top@[mm].0 <= top@[m2].0);
                                }
                            }
                        }
                    }
                }
            }
            i5 = i5 + 1;
        }

        // sort descending and resolve hosts
        let sorted = sort_pairs_desc(top);
        let mut r: Vec<ScoredNode> = Vec::new();
        proof {
            assert(results_from_seeds(
                self.graph(),
                self.model().pairs_spec(),
                nodes@,
                seeds,
                r@,
            )) by {
                assert forall|k: int| #![trigger seeds[k]] 0 <= k < seeds.len()
                    implies is_seed_id(self.graph(), nodes@, seeds[k]) by {
                    assert(seeds[k] == ids@[k]);
                }
                assert forall|i: int| #![trigger r@[i]] 0 <= i < r@.len() implies exists|t2: u64|
                    #[trigger] is_potential(self.graph(), nodes@, t2)
                        && r@[i].node@ == self.graph().host_of(t2) && r@[i].score == sim_score(
                        self.model().pairs_spec(),
                        seeds,
                        Seq::<u64>::empty(),
                        t2,
                    ) by {
                    assert(false);
                }
            }
        }
        let mut i6: usize = 0;
        while i6 < sorted.len()
            invariant
                i6 <= sorted@.len(),
                self.wf(),
                r@.len() == i6,
                sorted@.to_multiset() == top@.to_multiset(),
                sorted_desc(sorted@),
                forall|k: int| #![trigger top@[k]] 0 <= k < top@.len()
                    ==> is_potential(self.graph(), nodes@, top@[k].1)
                        && top@[k].1 < self.graph().node_count() && top@[k].0 == sim_score(
                        self.model().pairs_spec(),
                        seeds,
                        Seq::<u64>::empty(),
                        top@[k].1,
                    ),
                forall|i: int, j: int| #![trigger r@[i], r@[j]] 0 <= i < j < r@.len()
                    ==> r@[i].score >= r@[j].score,
                forall|i: int| #![trigger r@[i]] 0 <= i < r@.len()
                    ==> r@[i].score == sorted@[i].0 && r@[i].node@ == self.graph().host_of(
                        sorted@[i].1,
                    ),
                results_from_seeds(self.graph(), self.model().pairs_spec(), nodes@, seeds, r@),
            decreases sorted@.len() - i6,
        {
            let p = sorted[i6];
            proof {
                sorted@.to_multiset_ensures();
                top@.to_multiset_ensures();
                assert(sorted@.contains(sorted@[i6 as int]));
                assert(sorted@.to_multiset().count(p) > 0);
                assert(top@.to_multiset().count(p) > 0);
                assert(top@.contains(p));
            }
            let t = p.1;
            let ghost kk = choose|kk: int| 0 <= kk < top@.len() && top@[kk] == p;
            proof {
                assert(is_potential(self.graph(), nodes@, t));
                assert(t < self.graph().node_count());
                assert(p.0 == sim_score(
                    self.model().pairs_spec(),
                    seeds,
                    Seq::<u64>::empty(),
                    t,
                ));
            }
            let ghost prev_r = r@;
            match self.webgraph.id2node(t) {
                Some(host) => {
                    r.push(ScoredNode { node: host, score: p.0 });
                    proof {
                        assert(r@[i6 as int].node@ == self.graph().host_of(t));
                        assert(r@[i6 as int].score == p.0);
                        assert(results_from_seeds(
                            self.graph(),
                            self.model().pairs_spec(),
                            nodes@,
                            seeds,
                            r@,
                        )) by {
                            assert forall|i: int| #![trigger r@[i]] 0 <= i < r@.len()
                                implies exists|t2: u64|
                                    #[trigger] is_potential(self.graph(), nodes@, t2)
                                        && r@[i].node@ == self.graph().host_of(t2)
                                        && r@[i].score == sim_score(
                                        self.model().pairs_spec(),
                                        seeds,
                                        Seq::<u64>::empty(),
                                        t2,
                                    ) by {
                                if i < prev_r.len() {
                                    assert(r@[i] == prev_r[i]);
                                } else {
                                    assert(r@[i].node@ == self.graph().host_of(t));
                                    assert(is_potential(self.graph(), nodes@, t));
                                }
                            }
                        }
                    }
                }
                None => {
                    proof {
                        assert(false);
                    }
                }
            }
            i6 = i6 + 1;
        }
        proof {
            let g = self.graph();
            let pairs = self.model().pairs_spec();
            let rs = resolved_seeds(g, nodes@);
            assert(seeds =~= rs);
            // the candidate set is exactly what was gathered
            potential@.unique_seq_to_set();
            vstd::seq_lib::seq_to_set_is_finite(potential@);
            assert(candidate_set(g, nodes@) =~= potential@.to_set());
            assert(candidate_set(g, nodes@).len() == potential@.len());
            // every candidate left out scores no higher than the last result
            assert forall|t: u64|
                #[trigger] is_potential(g, nodes@, t) && !represented(g, r@, t) && r@.len() > 0
                implies sim_score(pairs, rs, Seq::<u64>::empty(), t) <= r@[r@.len() - 1].score
                by {
                assert(potential@.contains(t));
                let j = choose|j: int| 0 <= j < potential@.len() && potential@[j] == t;
                sorted@.to_multiset_ensures();
                top@.to_multiset_ensures();
                if has_source(top@, t) {
                    let m = choose|m: int| 0 <= m < top@.len() && top@[m].1 == t;
                    assert(top@.contains(top@[m]));
                    assert(top@.to_multiset().count(top@[m]) > 0);
                    assert(sorted@.contains(top@[m]));
                    let k = choose|k: int| 0 <= k < sorted@.len() && sorted@[k] == top@[m];
                    assert(r@[k].node@ == g.host_of(t));
                    assert(represented(g, r@, t));
                } else {
                    assert(top@.len() == limit);
                    assert(forall|m2: int| #![trigger top@[m2]] 0 <= m2 < top@.len()
                        ==> sim_score(pairs, seeds, Seq::<u64>::empty(), t) <= top@[m2].0);
                    let last = sorted@[sorted@.len() - 1];
                    assert(sorted@.contains(last));
                    assert(sorted@.to_multiset().count(last) > 0);
                    assert(top@.contains(last));
                    let m2 = choose|m2: int| 0 <= m2 < top@.len() && top@[m2] == last;
                    assert(sim_score(pairs, seeds, Seq::<u64>::empty(), t) <= top@[m2].0);
                    assert(r@[r@.len() - 1].score == last.0);
                }
            }
        }
        r
    }
}

/// Raises the backlink count of `src` by one, adding it if new. Counts
/// saturate; their exact value only drives traversal order.
fn bump_count(counts: &mut Vec<(u64, u64)>, src: u64)
    ensures
        final(counts)@.len() >= old(counts)@.len(),
        forall|k: int| #![trigger final(counts)@[k]] 0 <= k < final(counts)@.len()
            ==> final(counts)@[k].0 == if k < old(counts)@.len() {
                old(counts)@[k].0
            } else {
                src
            },
        final(counts)@.len() <= old(counts)@.len() + 1,
        has_key(final(counts)@, src),
        forall|s2: u64| #[trigger] has_key(old(counts)@, s2) ==> has_key(final(counts)@, s2),
{
    let mut i: usize = 0;
    while i < counts.len()
        invariant
            i <= counts@.len(),
            counts@.len() == old(counts)@.len(),
            forall|k: int| #![trigger counts@[k]] 0 <= k < counts@.len()
                ==> counts@[k].0 == old(counts)@[k].0,
        decreases counts@.len() - i,
    {
        if counts[i].0 == src {
            let c = counts[i];
            let bumped = if c.1 < u64::MAX {
                c.1 + 1
            } else {
                c.1
            };
            counts.remove(i);
            counts.insert(i, (src, bumped));
            proof {
                assert forall|k: int| 0 <= k < counts@.len()
                    implies counts@[k].0 == old(counts)@[k].0 by {
                }
                assert(counts@[i as int].0 == src);
                assert(has_key(counts@, src));
                assert forall|s2: u64| #[trigger] has_key(old(counts)@, s2)
                    implies has_key(counts@, s2) by {
                    let k = choose|k: int|
                        0 <= k < old(counts)@.len() && old(counts)@[k].0 == s2;
                    assert(counts@[k].0 == s2);
                }
            }
            return ;
        }
        i = i + 1;
    }
    let ghost pre = counts@;
    counts.push((src, 1));
    proof {
        assert(counts@[pre.len() as int].0 == src);
        assert(has_key(counts@, src));
        assert forall|s2: u64| #[trigger] has_key(old(counts)@, s2)
            implies has_key(counts@, s2) by {
            let k = choose|k: int|
                0 <= k < old(counts)@.len() && old(counts)@[k].0 == s2;
            assert(pre[k].0 == s2);
            assert(counts@[k].0 == s2);
        }
    }
}

} // verus!

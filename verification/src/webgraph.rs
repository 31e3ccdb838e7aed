//! Host-level web graph, consumed by the similar-sites finder.
//!
//! Nodes are hosts, identified by dense ids; the graph keeps, per node,
//! the sources of its inbound links and the targets of its outbound
//! links. A host unknown to the graph has no id and therefore no edges.

use vstd::prelude::*;
use crate::text::chars_of;
use crate::text::string_of;

verus! {

/// One directed edge of the web graph.
#[derive(Clone, Copy, Debug, PartialEq, Eq, Structural)]
pub struct Edge {
    pub from: u64,
    pub to: u64,
}

/// Directed graph over host-level node ids.
pub struct Webgraph {
    hosts: Vec<String>,
    ingoing: Vec<Vec<u64>>,
    outgoing: Vec<Vec<u64>>,
}

impl Webgraph {
    /// Number of nodes; valid ids are below it.
    pub closed spec fn node_count(self) -> int {
        self.hosts@.len() as int
    }

    /// The host name of node `id`.
    pub closed spec fn host_of(self, id: u64) -> Seq<char> {
        self.hosts@[id as int]@
    }

    /// The sources of the inbound edges of `id` (empty off-graph).
    pub closed spec fn in_sources(self, id: u64) -> Seq<u64> {
        if id < self.node_count() {
            self.ingoing@[id as int]@
        } else {
            Seq::empty()
        }
    }

    /// The targets of the outbound edges of `id` (empty off-graph).
    pub closed spec fn out_targets(self, id: u64) -> Seq<u64> {
        if id < self.node_count() {
            self.outgoing@[id as int]@
        } else {
            Seq::empty()
        }
    }

    /// Every edge endpoint the graph stores is a valid node id, and no
    /// two nodes share a host.
    pub closed spec fn wf(self) -> bool {
        &&& forall|a: int, b: int| #![trigger self.hosts@[a], self.hosts@[b]]
            0 <= a < b < self.hosts@.len() ==> self.hosts@[a]@ != self.hosts@[b]@
        &&& self.ingoing@.len() == self.hosts@.len()
        &&& self.outgoing@.len() == self.hosts@.len()
        &&& forall|n: int, k: int| #![trigger self.ingoing@[n]@[k]]
            0 <= n < self.ingoing@.len() && 0 <= k < self.ingoing@[n]@.len()
                ==> self.ingoing@[n]@[k] < self.hosts@.len()
        &&& forall|n: int, k: int| #![trigger self.outgoing@[n]@[k]]
            0 <= n < self.outgoing@.len() && 0 <= k < self.outgoing@[n]@.len()
                ==> self.outgoing@[n]@[k] < self.hosts@.len()
    }

    /// An empty graph.
    pub fn new() -> (g: Self)
        ensures
            g.wf(),
            g.node_count() == 0,
    {
        Webgraph { hosts: Vec::new(), ingoing: Vec::new(), outgoing: Vec::new() }
    }

    /// Interns a host: returns the id it already has, or adds it as a
    /// new node.
    pub fn add_node(&mut self, host: String) -> (id: u64)
        requires
            old(self).wf(),
            old(self).node_count() < u64::MAX,
        ensures
            final(self).wf(),
            id < final(self).node_count(),
            final(self).host_of(id) == host@,
            forall|n: u64| n < old(self).node_count()
                ==> final(self).host_of(n) == old(self).host_of(n)
                    && final(self).in_sources(n) == old(self).in_sources(n)
                    && final(self).out_targets(n) == old(self).out_targets(n),
            if exists|n: u64| n < old(self).node_count() && #[trigger] old(self).host_of(n)
                == host@ {
                final(self).node_count() == old(self).node_count()
            } else {
                final(self).node_count() == old(self).node_count() + 1
                    && id == old(self).node_count()
                    && final(self).in_sources(id) == Seq::<u64>::empty()
                    && final(self).out_targets(id) == Seq::<u64>::empty()
            },
    {
        match self.node_id(&host) {
            Some(id) => {
                proof {
                    assert(self.host_of(id) == host@);
                }
                id
            }
            None => {
                let ghost pre = *self;
                let id = self.hosts.len() as u64;
                self.hosts.push(host);
                self.ingoing.push(Vec::new());
                self.outgoing.push(Vec::new());
                proof {
                    assert forall|a: int, b: int|
                        0 <= a < b < self.hosts@.len()
                        implies self.hosts@[a]@ != self.hosts@[b]@ by {
                        if b == self.hosts@.len() - 1 {
                            assert(pre.host_of(a as u64) != host@);
                        }
                    }
                }
                id
            }
        }
    }

    /// Records the edge `from -> to`; refused (returning `false`) when
    /// either endpoint is not a node of the graph.
    pub fn add_edge(&mut self, from: u64, to: u64) -> (ok: bool)
        requires
            old(self).wf(),
        ensures
            final(self).wf(),
            final(self).node_count() == old(self).node_count(),
            forall|n: u64| n < old(self).node_count()
                ==> final(self).host_of(n) == old(self).host_of(n),
            ok == (from < old(self).node_count() && to < old(self).node_count()),
            if ok {
                &&& final(self).out_targets(from) == old(self).out_targets(from).push(to)
                &&& final(self).in_sources(to) == old(self).in_sources(to).push(from)
                &&& forall|n: u64| n < old(self).node_count() && n != from
                    ==> final(self).out_targets(n) == old(self).out_targets(n)
                &&& forall|n: u64| n < old(self).node_count() && n != to
                    ==> final(self).in_sources(n) == old(self).in_sources(n)
            } else {
                &&& forall|n: u64| n < old(self).node_count()
                    ==> final(self).out_targets(n) == old(self).out_targets(n)
                        && final(self).in_sources(n) == old(self).in_sources(n)
            },
    {
        if from < self.hosts.len() as u64 && to < self.hosts.len() as u64 {
            let mut out_list = self.outgoing.remove(from as usize);
            out_list.push(to);
            self.outgoing.insert(from as usize, out_list);
            let mut in_list = self.ingoing.remove(to as usize);
            in_list.push(from);
            self.ingoing.insert(to as usize, in_list);
            true
        } else {
            false
        }
    }

    /// The inbound edges of `node`, each pointing at `node`.
    pub fn raw_ingoing_edges(&self, node: u64) -> (r: Vec<Edge>)
        requires
            self.wf(),
        ensures
            r@.len() == self.in_sources(node).len(),
            forall|k: int| #![trigger r@[k]] 0 <= k < r@.len()
                ==> r@[k] == (Edge { from: self.in_sources(node)[k], to: node })
                    && r@[k].from < self.node_count(),
    {
        let mut r: Vec<Edge> = Vec::new();
        if node < self.hosts.len() as u64 {
            let list = &self.ingoing[node as usize];
            let mut k: usize = 0;
            while k < list.len()
                invariant
                    k <= list@.len(),
                    list@ == self.ingoing@[node as int]@,
                    self.wf(),
                    (node as int) < self.node_count(),
                    r@.len() == k,
                    forall|j: int| #![trigger r@[j]] 0 <= j < k
                        ==> r@[j] == (Edge { from: list@[j], to: node })
                            && r@[j].from < self.node_count(),
                decreases list@.len() - k,
            {
                r.push(Edge { from: list[k], to: node });
                k = k + 1;
            }
        }
        r
    }

    /// The outbound edges of `node`, each leaving `node`.
    pub fn raw_outgoing_edges(&self, node: u64) -> (r: Vec<Edge>)
        requires
            self.wf(),
        ensures
            r@.len() == self.out_targets(node).len(),
            forall|k: int| #![trigger r@[k]] 0 <= k < r@.len()
                ==> r@[k] == (Edge { from: node, to: self.out_targets(node)[k] })
                    && r@[k].to < self.node_count(),
    {
        let mut r: Vec<Edge> = Vec::new();
        if node < self.hosts.len() as u64 {
            let list = &self.outgoing[node as usize];
            let mut k: usize = 0;
            while k < list.len()
                invariant
                    k <= list@.len(),
                    list@ == self.outgoing@[node as int]@,
                    self.wf(),
                    (node as int) < self.node_count(),
                    r@.len() == k,
                    forall|j: int| #![trigger r@[j]] 0 <= j < k
                        ==> r@[j] == (Edge { from: node, to: list@[j] })
                            && r@[j].to < self.node_count(),
                decreases list@.len() - k,
            {
                r.push(Edge { from: node, to: list[k] });
                k = k + 1;
            }
        }
        r
    }

    /// The host name of a node id.
    pub fn id2node(&self, id: u64) -> (r: Option<String>)
        ensures
            match r {
                Some(h) => id < self.node_count() && h@ == self.host_of(id),
                None => id >= self.node_count(),
            },
    {
        if id < self.hosts.len() as u64 {
            Some(self.hosts[id as usize].clone())
        } else {
            None
        }
    }

    /// Two nodes with the same host are the same node.
    pub proof fn lemma_hosts_unique(self, a: u64, b: u64)
        requires
            self.wf(),
            a < self.node_count(),
            b < self.node_count(),
            self.host_of(a) == self.host_of(b),
        ensures
            a == b,
    {
    }

    /// The id of a host, if the graph knows it.
    pub fn node_id(&self, host: &String) -> (r: Option<u64>)
        ensures
            match r {
                Some(id) => id < self.node_count() && self.host_of(id) == host@,
                None => forall|n: u64| n < self.node_count()
                    ==> #[trigger] self.host_of(n) != host@,
            },
    {
        let mut k: usize = 0;
        while k < self.hosts.len()
            invariant
                k <= self.hosts@.len(),
                forall|n: u64| n < k ==> self.host_of(n) != host@,
            decreases self.hosts@.len() - k,
        {
            if self.hosts[k].eq(host) {
                proof {
                    assert(self.host_of(k as u64) == host@);
                }
                return Some(k as u64);
            }
            proof {
                assert(self.host_of(k as u64) != host@);
                assert forall|n: u64| n < k + 1 implies self.host_of(n) != host@ by {
                    if n < k {
                    } else {
                        assert(n == k);
                    }
                }
            }
            k = k + 1;
        }
        None
    }
}

/// Position of the first `"://"` in `s` at or after `i`, or `-1`.
pub open spec fn scheme_pos(s: Seq<char>, i: int) -> int
    decreases s.len() - i,
{
    if i < 0 || i + 3 > s.len() {
        -1
    } else if s[i] == ':' && s[i + 1] == '/' && s[i + 2] == '/' {
        i
    } else {
        scheme_pos(s, i + 1)
    }
}

/// The host prefix: everything up to the first `'/'`, `'?'` or `'#'`.
pub open spec fn host_end_cut(s: Seq<char>) -> Seq<char>
    decreases s.len(),
{
    if s.len() == 0 {
        s
    } else if s[0] == '/' || s[0] == '?' || s[0] == '#' {
        Seq::empty()
    } else {
        seq![s[0]] + host_end_cut(s.skip(1))
    }
}

/// The host part of a URL: what follows the first `"://"` (the whole
/// string when there is none), up to the next `'/'`, `'?'` or `'#'`.
pub open spec fn host_part(s: Seq<char>) -> Seq<char> {
    let p = scheme_pos(s, 0);
    if p >= 0 {
        host_end_cut(s.skip(p + 3))
    } else {
        host_end_cut(s)
    }
}

/// Canonicalizes a URL to its host.
pub fn into_host(url: &String) -> (r: String)
    ensures
        r@ == host_part(url@),
{
    let v = chars_of(url.as_str());
    let n = v.len();
    let mut i: usize = 0;
    let mut start: usize = 0;
    let mut found = false;
    while !found && n >= 3 && i <= n - 3
        invariant
            v@ == url@,
            n == v@.len(),
            i <= n,
            !found ==> scheme_pos(v@, 0) == scheme_pos(v@, i as int),
            found ==> scheme_pos(v@, 0) == i - 3 && start == i && i >= 3,
            !found ==> start == 0,
        decreases n - i, (if found { 0int } else { 1int }),
    {
        if v[i] == ':' && v[i + 1] == '/' && v[i + 2] == '/' {
            found = true;
            start = i + 3;
            i = i + 3;
        } else {
            i = i + 1;
        }
    }
    proof {
        assert(v@.skip(0) =~= v@);
        if !found {
            assert(scheme_pos(v@, i as int) == -1);
        }
    }
    let mut out: Vec<char> = Vec::new();
    let mut k: usize = start;
    let mut stop = false;
    while k < n && !stop
        invariant
            v@ == url@,
            n == v@.len(),
            start <= k <= n,
            out@.len() == k - start,
            !stop ==> host_end_cut(v@.skip(start as int)) =~= out@ + host_end_cut(v@.skip(k as int)),
            stop ==> host_end_cut(v@.skip(start as int)) =~= out@,
        decreases n - k, (if stop { 0int } else { 1int }),
    {
        let c = v[k];
        if c == '/' || c == '?' || c == '#' {
            proof {
                assert(v@.skip(k as int)[0] == c);
                assert(host_end_cut(v@.skip(k as int)) =~= Seq::<char>::empty());
            }
            stop = true;
        } else {
            proof {
                assert(v@.skip(k as int)[0] == c);
                assert(v@.skip(k as int).skip(1) =~= v@.skip(k + 1));
                assert(host_end_cut(v@.skip(k as int)) =~= seq![c] + host_end_cut(
                    v@.skip(k + 1),
                ));
            }
            out.push(c);
            k = k + 1;
        }
    }
    proof {
        if !stop {
            assert(v@.skip(k as int).len() == 0);
        }
        assert(out@ =~= host_end_cut(v@.skip(start as int)));
        if found {
            assert(scheme_pos(v@, 0) == start - 3);
        }
    }
    string_of(&out)
}

} // verus!

//! Graph fragments and their merge.

use vstd::prelude::*;
use crate::event::{build_node, build_error, complete, terminated_node};
use crate::event::{BuildError, Identity, Node, NodeKey, NodeView, ProcessStop};

verus! {

/// A directed relation between two node identities.
#[derive(Clone, Debug)]
pub struct Edge {
    pub from: NodeKey,
    pub to: NodeKey,
    pub edge_name: String,
}

impl Edge {
    /// An independent copy of this edge.
    pub fn duplicate(&self) -> (r: Edge)
        ensures
            r == *self,
    {
        Edge {
            from: self.from.duplicate(),
            to: self.to.duplicate(),
            edge_name: self.edge_name.clone(),
        }
    }
}

/// The mathematical value of an [`Edge`].
pub ghost struct EdgeView {
    pub from: Identity,
    pub to: Identity,
    pub edge_name: Seq<char>,
}

impl View for Edge {
    type V = EdgeView;

    open spec fn view(&self) -> EdgeView {
        EdgeView { from: self.from@, to: self.to@, edge_name: self.edge_name@ }
    }
}

/// The mathematical value of a [`Graph`].
pub ghost struct GraphView {
    pub nodes: Seq<NodeView>,
    pub edges: Seq<EdgeView>,
    pub timestamp: u64,
}

/// A graph: the fragment of one event, or the aggregate of a batch.
///
/// `nodes` stands for a map from identity to node: in a well-formed graph no
/// identity occurs twice in it.
#[derive(Clone, Debug)]
pub struct Graph {
    pub nodes: Vec<Node>,
    pub edges: Vec<Edge>,
    pub timestamp: u64,
}

/// Whether some node of `s` has the identity `id`.
pub open spec fn has_key(s: Seq<Node>, id: Identity) -> bool {
    exists|i: int| 0 <= i < s.len() && (#[trigger] s[i]).key@ == id
}

/// Whether no identity occurs twice in `s`.
pub open spec fn distinct_keys(s: Seq<Node>) -> bool {
    forall|i: int, j: int| 0 <= i < j < s.len() ==> (#[trigger] s[i]).key@ != (#[trigger] s[j]).key@
}

/// A position in `s` that holds the identity `id`, where there is one.
pub open spec fn position_of(s: Seq<Node>, id: Identity) -> int {
    choose|i: int| 0 <= i < s.len() && (#[trigger] s[i]).key@ == id
}

/// `s` with `n` in the place of the node of the same identity, or at the end
/// where `s` has no such node.
pub open spec fn upsert(s: Seq<Node>, n: Node) -> Seq<Node> {
    if has_key(s, n.key@) {
        s.update(position_of(s, n.key@), n)
    } else {
        s.push(n)
    }
}

/// `base` after each node of `incoming` was put into it, first to last.
pub open spec fn merge_nodes(base: Seq<Node>, incoming: Seq<Node>) -> Seq<Node>
    decreases incoming.len(),
{
    if incoming.len() == 0 {
        base
    } else {
        upsert(merge_nodes(base, incoming.drop_last()), incoming.last())
    }
}

/// The identities that occur in `s`.
pub open spec fn identities(s: Seq<Node>) -> Set<Identity> {
    Set::new(|id: Identity| has_key(s, id))
}

/// The value of the graph that holds `nodes` and `edges` and is stamped
/// `timestamp`.
pub open spec fn graph_view(nodes: Seq<Node>, edges: Seq<Edge>, timestamp: u64) -> GraphView {
    GraphView {
        nodes: nodes.map_values(|n: Node| n@),
        edges: edges.map_values(|e: Edge| e@),
        timestamp,
    }
}

impl View for Graph {
    type V = GraphView;

    open spec fn view(&self) -> GraphView {
        graph_view(self.nodes@, self.edges@, self.timestamp)
    }
}

impl Graph {
    /// Whether the nodes form a map keyed by identity.
    pub open spec fn wf(&self) -> bool {
        distinct_keys(self.nodes@)
    }

    /// An empty graph stamped with `timestamp`.
    pub fn new(timestamp: u64) -> (g: Graph)
        ensures
            g.wf(),
            g.nodes@ == Seq::<Node>::empty(),
            g.edges@ == Seq::<Edge>::empty(),
            g.timestamp == timestamp,
    {
        Graph { nodes: Vec::new(), edges: Vec::new(), timestamp }
    }

    /// Whether the graph has neither nodes nor edges.
    pub fn is_empty(&self) -> (r: bool)
        ensures
            r == (self.nodes@.len() == 0 && self.edges@.len() == 0),
    {
        self.nodes.len() == 0 && self.edges.len() == 0
    }

    /// Puts `node` into the graph. A node of the same identity is replaced.
    pub fn add_node(&mut self, node: Node)
        requires
            old(self).wf(),
        ensures
            final(self).wf(),
            final(self).nodes@ == upsert(old(self).nodes@, node),
            final(self).edges == old(self).edges,
            final(self).timestamp == old(self).timestamp,
    {
        let ghost before = self.nodes@;
        let mut i: usize = 0;
        while i < self.nodes.len()
            invariant
                self.nodes@ == before,
                before == old(self).nodes@,
                self.edges == old(self).edges,
                self.timestamp == old(self).timestamp,
                distinct_keys(before),
                i <= before.len(),
                forall|k: int| 0 <= k < i ==> (#[trigger] before[k]).key@ != node.key@,
            decreases self.nodes.len() - i,
        {
            if self.nodes[i].key.same_as(&node.key) {
                proof {
                    assert(has_key(before, node.key@));
                    let p = position_of(before, node.key@);
                    assert(p == i) by {
                        if p < i {
                            assert(before[p].key@ != before[i as int].key@);
                        } else if p > i {
                            assert(before[i as int].key@ != before[p].key@);
                        }
                    }
                    lemma_upsert_distinct(before, node);
                }
                self.nodes.set(i, node);
                return ;
            }
            i += 1;
        }
        proof {
            assert(!has_key(before, node.key@));
            lemma_upsert_distinct(before, node);
        }
        self.nodes.push(node);
    }

    /// Adds an edge to the graph.
    pub fn add_edge(&mut self, edge: Edge)
        ensures
            final(self).nodes == old(self).nodes,
            final(self).edges@ == old(self).edges@.push(edge),
            final(self).timestamp == old(self).timestamp,
    {
        self.edges.push(edge);
    }

    /// Merges `other` into this graph: its nodes are put in one by one, so
    /// that of two nodes of one identity the later one stays, and its edges
    /// are appended.
    pub fn merge(&mut self, other: &Graph)
        requires
            old(self).wf(),
        ensures
            final(self).wf(),
            final(self).nodes@ == merge_nodes(old(self).nodes@, other.nodes@),
            final(self).edges@ == old(self).edges@ + other.edges@,
            final(self).timestamp == old(self).timestamp,
    {
        let ghost nodes_before = self.nodes@;
        let ghost edges_before = self.edges@;
        let mut i: usize = 0;
        while i < other.nodes.len()
            invariant
                i <= other.nodes@.len(),
                self.wf(),
                self.nodes@ == merge_nodes(nodes_before, other.nodes@.take(i as int)),
                self.edges@ == edges_before,
                self.timestamp == old(self).timestamp,
            decreases other.nodes.len() - i,
        {
            let node = other.nodes[i].duplicate();
            proof {
                let next = other.nodes@.take(i + 1);
                assert(next.drop_last() == other.nodes@.take(i as int));
                assert(next.last() == other.nodes@[i as int]);
            }
            self.add_node(node);
            i += 1;
        }
        proof {
            assert(other.nodes@.take(i as int) == other.nodes@);
        }
        let mut j: usize = 0;
        while j < other.edges.len()
            invariant
                j <= other.edges@.len(),
                self.wf(),
                self.nodes@ == merge_nodes(nodes_before, other.nodes@),
                self.edges@ == edges_before + other.edges@.take(j as int),
                self.timestamp == old(self).timestamp,
            decreases other.edges.len() - j,
        {
            let edge = other.edges[j].duplicate();
            proof {
                assert(other.edges@.take(j + 1) == other.edges@.take(j as int).push(
                    other.edges@[j as int],
                ));
                assert(edges_before + other.edges@.take(j + 1) == (edges_before
                    + other.edges@.take(j as int)).push(other.edges@[j as int]));
            }
            self.edges.push(edge);
            j += 1;
        }
        proof {
            assert(other.edges@.take(j as int) == other.edges@);
        }
    }

    /// The fragment of one stop event: the terminated process as its only
    /// node, no edge, and the event's own timestamp. An event without a
    /// hostname or a process name is rejected.
    pub fn try_from(process_stop: ProcessStop) -> (r: Result<Graph, BuildError>)
        ensures
            complete(process_stop) ==> r is Ok && r->Ok_0.wf() && r->Ok_0.nodes@ == seq![
                terminated_node(process_stop),
            ] && r->Ok_0.edges@ == Seq::<Edge>::empty() && r->Ok_0.timestamp
                == process_stop.timestamp,
            !complete(process_stop) ==> r == Err::<Graph, BuildError>(build_error(process_stop)),
    {
        let timestamp: u64 = process_stop.timestamp;
        match build_node(process_stop) {
            Ok(node) => Ok(Graph::to_fragment(node, timestamp)),
            Err(e) => Err(e),
        }
    }

    /// The fragment of one node: a graph with that node alone and no edge,
    /// stamped with `timestamp`.
    pub fn to_fragment(node: Node, timestamp: u64) -> (g: Graph)
        ensures
            g.wf(),
            g.nodes@ == seq![node],
            g.edges@ == Seq::<Edge>::empty(),
            g.timestamp == timestamp,
    {
        let mut graph = Graph::new(timestamp);
        graph.add_node(node);
        proof {
            assert(!has_key(Seq::<Node>::empty(), node.key@));
            assert(graph.nodes@ == seq![node]);
        }
        graph
    }
}

/// Putting a node into a sequence without repeated identities leaves it
/// without repeated identities, and adds the node's identity to it.
pub proof fn lemma_upsert_distinct(s: Seq<Node>, n: Node)
    requires
        distinct_keys(s),
    ensures
        distinct_keys(upsert(s, n)),
        identities(upsert(s, n)) == identities(s).insert(n.key@),
        has_key(s, n.key@) ==> upsert(s, n).len() == s.len(),
        !has_key(s, n.key@) ==> upsert(s, n).len() == s.len() + 1,
{
    let r = upsert(s, n);
    let id = n.key@;
    if has_key(s, id) {
        let p = position_of(s, id);
        assert forall|x: Identity| has_key(r, x) == (has_key(s, x) || x == id) by {
            if has_key(r, x) {
                let i = choose|i: int| 0 <= i < r.len() && (#[trigger] r[i]).key@ == x;
                if i != p {
                    assert(s[i].key@ == x);
                }
            }
            if has_key(s, x) {
                let i = choose|i: int| 0 <= i < s.len() && (#[trigger] s[i]).key@ == x;
                assert(r[i].key@ == x);
            }
            if x == id {
                assert(r[p].key@ == x);
            }
        }
        assert forall|i: int, j: int| 0 <= i < j < r.len() implies (#[trigger] r[i]).key@ != (
        #[trigger] r[j]).key@ by {
            assert(s[i].key@ != s[j].key@);
        }
    } else {
        assert forall|x: Identity| has_key(r, x) == (has_key(s, x) || x == id) by {
            if has_key(r, x) {
                let i = choose|i: int| 0 <= i < r.len() && (#[trigger] r[i]).key@ == x;
                if i < s.len() {
                    assert(s[i].key@ == x);
                }
            }
            if has_key(s, x) {
                let i = choose|i: int| 0 <= i < s.len() && (#[trigger] s[i]).key@ == x;
                assert(r[i].key@ == x);
            }
            if x == id {
                assert(r[s.len() as int].key@ == x);
            }
        }
        assert forall|i: int, j: int| 0 <= i < j < r.len() implies (#[trigger] r[i]).key@ != (
        #[trigger] r[j]).key@ by {
            if j < s.len() {
                assert(s[i].key@ != s[j].key@);
            } else {
                assert(s[i].key@ != id);
            }
        }
    }
    assert(identities(r) =~= identities(s).insert(id));
}

} // verus!

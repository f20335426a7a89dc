//! The merge of all fragments of one batch, and what holds of it.

use vstd::prelude::*;
use vstd::seq_lib::{to_multiset_build, to_multiset_remove};
use crate::event::{build_error, complete, terminated_node};
use crate::event::{BuildError, Identity, Node, ProcessStop};
use crate::graph::{distinct_keys, has_key, identities, lemma_upsert_distinct, merge_nodes};
use crate::graph::{position_of, upsert};
use crate::graph::{Edge, Graph};

verus! {

/// The aggregate graph of a batch, with the number of nodes and edges that
/// its fragments held before they were merged.
#[derive(Clone, Debug)]
pub struct MergedBatch {
    pub graph: Graph,
    pub pre_nodes: u128,
    pub pre_edges: u128,
}

/// The nodes of the aggregate of `frags`: each fragment's nodes merged into
/// the nodes of the fragments before it.
pub open spec fn batch_nodes(frags: Seq<Graph>) -> Seq<Node>
    decreases frags.len(),
{
    if frags.len() == 0 {
        Seq::empty()
    } else {
        merge_nodes(batch_nodes(frags.drop_last()), frags.last().nodes@)
    }
}

/// The edges of the aggregate of `frags`: the fragments' edges in order.
pub open spec fn batch_edges(frags: Seq<Graph>) -> Seq<Edge>
    decreases frags.len(),
{
    if frags.len() == 0 {
        Seq::empty()
    } else {
        batch_edges(frags.drop_last()) + frags.last().edges@
    }
}

/// The sum of `weight` over `frags`.
pub open spec fn total(frags: Seq<Graph>, weight: spec_fn(Graph) -> nat) -> nat
    decreases frags.len(),
{
    if frags.len() == 0 {
        0
    } else {
        total(frags.drop_last(), weight) + weight(frags.last())
    }
}

/// How many nodes the fragments hold, counted fragment by fragment.
pub open spec fn nodes_before_merge(frags: Seq<Graph>) -> nat {
    total(frags, |g: Graph| g.nodes@.len())
}

/// How many edges the fragments hold, counted fragment by fragment.
pub open spec fn edges_before_merge(frags: Seq<Graph>) -> nat {
    total(frags, |g: Graph| g.edges@.len())
}

/// Whether some fragment holds a node of the identity `id`.
pub open spec fn batch_has_identity(frags: Seq<Graph>, id: Identity) -> bool {
    exists|k: int| 0 <= k < frags.len() && has_key((#[trigger] frags[k]).nodes@, id)
}

/// Whether some fragment holds the edge `e`.
pub open spec fn batch_has_edge(frags: Seq<Graph>, e: Edge) -> bool {
    exists|k: int| 0 <= k < frags.len() && (#[trigger] frags[k]).edges@.contains(e)
}

/// Whether `a` and `b` hold the same fragments, each as often, in any order.
pub open spec fn same_fragments(a: Seq<Graph>, b: Seq<Graph>) -> bool {
    a.to_multiset() == b.to_multiset()
}

/// Whether `g` is the fragment of the complete event `event`.
pub open spec fn fragment_of(g: Graph, event: ProcessStop) -> bool {
    &&& g.wf()
    &&& g.nodes@ == seq![terminated_node(event)]
    &&& g.edges@ == Seq::<Edge>::empty()
    &&& g.timestamp == event.timestamp
}

/// The fragments of a batch of events, one for each event in order. One
/// incomplete event fails the whole batch, with the error of the first such
/// event, and no fragment is handed out.
pub fn fragments_of(events: &[ProcessStop]) -> (r: Result<Vec<Graph>, BuildError>)
    ensures
        match r {
            Ok(fragments) => fragments@.len() == events@.len() && forall|i: int|
                0 <= i < events@.len() ==> complete(#[trigger] events@[i]) && fragment_of(
                    fragments@[i],
                    events@[i],
                ),
            Err(e) => exists|i: int|
                0 <= i < events@.len() && !complete(#[trigger] events@[i]) && e == build_error(
                    events@[i],
                ) && forall|j: int| 0 <= j < i ==> complete(#[trigger] events@[j]),
        },
{
    let mut fragments: Vec<Graph> = Vec::new();
    let mut i: usize = 0;
    while i < events.len()
        invariant
            i <= events@.len(),
            fragments@.len() == i,
            forall|k: int|
                0 <= k < i ==> complete(#[trigger] events@[k]) && fragment_of(
                    fragments@[k],
                    events@[k],
                ),
        decreases events.len() - i,
    {
        match Graph::try_from(events[i].duplicate()) {
            Ok(fragment) => {
                fragments.push(fragment);
            },
            Err(e) => {
                return Err(e);
            },
        }
        i += 1;
    }
    Ok(fragments)
}

/// Folds the fragments, in the order given, into one graph stamped 0, and
/// counts the nodes and edges that they held before.
pub fn merge_batch(fragments: &[Graph]) -> (r: MergedBatch)
    ensures
        r.graph.wf(),
        r.graph.nodes@ == batch_nodes(fragments@),
        r.graph.edges@ == batch_edges(fragments@),
        r.graph.timestamp == 0,
        r.pre_nodes == nodes_before_merge(fragments@),
        r.pre_edges == edges_before_merge(fragments@),
{
    let mut graph = Graph::new(0);
    let mut pre_nodes: u128 = 0;
    let mut pre_edges: u128 = 0;
    let mut i: usize = 0;
    while i < fragments.len()
        invariant
            i <= fragments@.len(),
            graph.wf(),
            graph.nodes@ == batch_nodes(fragments@.take(i as int)),
            graph.edges@ == batch_edges(fragments@.take(i as int)),
            graph.timestamp == 0,
            pre_nodes == nodes_before_merge(fragments@.take(i as int)),
            pre_edges == edges_before_merge(fragments@.take(i as int)),
            pre_nodes <= i * 0xFFFF_FFFF_FFFF_FFFF,
            pre_edges <= i * 0xFFFF_FFFF_FFFF_FFFF,
        decreases fragments.len() - i,
    {
        let fragment = &fragments[i];
        proof {
            let next = fragments@.take(i + 1);
            assert(next.drop_last() == fragments@.take(i as int));
            assert(next.last() == fragments@[i as int]);
            assert((i + 1) * 0xFFFF_FFFF_FFFF_FFFF <= 0xFFFF_FFFF_FFFF_FFFF
                * 0xFFFF_FFFF_FFFF_FFFF) by (nonlinear_arith)
                requires
                    i + 1 <= 0xFFFF_FFFF_FFFF_FFFF,
            ;
            assert(i * 0xFFFF_FFFF_FFFF_FFFF + 0xFFFF_FFFF_FFFF_FFFF == (i + 1)
                * 0xFFFF_FFFF_FFFF_FFFF) by (nonlinear_arith);
        }
        let node_count: usize = fragment.nodes.len();
        let edge_count: usize = fragment.edges.len();
        pre_nodes = pre_nodes + node_count as u128;
        pre_edges = pre_edges + edge_count as u128;
        graph.merge(fragment);
        i += 1;
    }
    proof {
        assert(fragments@.take(i as int) == fragments@);
    }
    MergedBatch { graph, pre_nodes, pre_edges }
}

/// The identities of a sequence are those of all but its last node, and the
/// last node's.
proof fn lemma_identities_step(s: Seq<Node>)
    requires
        s.len() > 0,
    ensures
        identities(s) == identities(s.drop_last()).insert(s.last().key@),
{
    let front = s.drop_last();
    assert forall|id: Identity| has_key(s, id) == (has_key(front, id) || id == s.last().key@) by {
        if has_key(s, id) {
            let i = choose|i: int| 0 <= i < s.len() && (#[trigger] s[i]).key@ == id;
            if i < front.len() {
                assert(front[i].key@ == id);
            }
        }
        if has_key(front, id) {
            let i = choose|i: int| 0 <= i < front.len() && (#[trigger] front[i]).key@ == id;
            assert(s[i].key@ == id);
        }
        if id == s.last().key@ {
            assert(s[s.len() - 1].key@ == id);
        }
    }
    assert(identities(s) =~= identities(front).insert(s.last().key@));
}

/// Merging keeps identities apart and yields the identities of both sides.
pub proof fn lemma_merge_nodes(base: Seq<Node>, incoming: Seq<Node>)
    requires
        distinct_keys(base),
    ensures
        distinct_keys(merge_nodes(base, incoming)),
        identities(merge_nodes(base, incoming)) == identities(base).union(identities(incoming)),
    decreases incoming.len(),
{
    if incoming.len() == 0 {
        assert(identities(incoming) =~= Set::<Identity>::empty()) by {
            assert forall|id: Identity| !has_key(incoming, id) by {}
        }
        assert(identities(base).union(Set::<Identity>::empty()) =~= identities(base));
    } else {
        let front = incoming.drop_last();
        lemma_merge_nodes(base, front);
        lemma_upsert_distinct(merge_nodes(base, front), incoming.last());
        lemma_identities_step(incoming);
        assert(identities(base).union(identities(front)).insert(incoming.last().key@)
            =~= identities(base).union(identities(front).insert(incoming.last().key@)));
    }
}

/// The node of the identity `id` in `s`, where `s` has one.
pub open spec fn node_of(s: Seq<Node>, id: Identity) -> Node {
    s[position_of(s, id)]
}

/// After a node was put in, its identity leads to it, and every other
/// identity to the node it led to before.
proof fn lemma_upsert_lookup(s: Seq<Node>, n: Node, id: Identity)
    requires
        distinct_keys(s),
        has_key(upsert(s, n), id),
    ensures
        id == n.key@ ==> node_of(upsert(s, n), id) == n,
        id != n.key@ ==> has_key(s, id) && node_of(upsert(s, n), id) == node_of(s, id),
{
    let r = upsert(s, n);
    lemma_upsert_distinct(s, n);
    let p = position_of(r, id);
    assert(0 <= p < r.len() && r[p].key@ == id);
    if has_key(s, n.key@) {
        let q = position_of(s, n.key@);
        assert(0 <= q < s.len() && s[q].key@ == n.key@);
        if id == n.key@ {
            assert(r[q].key@ == id);
            if p < q {
                assert(r[p].key@ != r[q].key@);
            } else if q < p {
                assert(r[q].key@ != r[p].key@);
            }
        } else {
            assert(p != q);
            assert(s[p].key@ == id);
            let o = position_of(s, id);
            if o < p {
                assert(s[o].key@ != s[p].key@);
            } else if p < o {
                assert(s[p].key@ != s[o].key@);
            }
        }
    } else {
        let q = s.len() as int;
        if id == n.key@ {
            assert(r[q].key@ == id);
            if p < q {
                assert(r[p].key@ != r[q].key@);
            }
        } else {
            assert(p != q);
            assert(s[p].key@ == id);
            let o = position_of(s, id);
            if o < p {
                assert(s[o].key@ != s[p].key@);
            } else if p < o {
                assert(s[p].key@ != s[o].key@);
            }
        }
    }
}

/// Of two nodes of one identity the later one stays: after a merge an
/// identity leads to the last node of that identity among the incoming
/// ones.
pub proof fn law_last_writer_wins(base: Seq<Node>, incoming: Seq<Node>, k: int)
    requires
        distinct_keys(base),
        0 <= k < incoming.len(),
        forall|j: int| k < j < incoming.len() ==> (#[trigger] incoming[j]).key@ != incoming[k].key@,
    ensures
        has_key(merge_nodes(base, incoming), incoming[k].key@),
        node_of(merge_nodes(base, incoming), incoming[k].key@) == incoming[k],
    decreases incoming.len(),
{
    let front = incoming.drop_last();
    let last = incoming.last();
    let before = merge_nodes(base, front);
    let id = incoming[k].key@;
    lemma_merge_nodes(base, front);
    lemma_upsert_distinct(before, last);
    assert(identities(upsert(before, last)).contains(last.key@));
    if k == incoming.len() - 1 {
        lemma_upsert_lookup(before, last, id);
    } else {
        assert(front[k] == incoming[k]);
        assert forall|j: int| k < j < front.len() implies (#[trigger] front[j]).key@ != front[k].key@ by {
            assert(incoming[j].key@ != incoming[k].key@);
        }
        law_last_writer_wins(base, front, k);
        assert(identities(before).contains(id));
        assert(identities(upsert(before, last)).contains(id));
        assert(incoming[incoming.len() - 1].key@ != id);
        lemma_upsert_lookup(before, last, id);
    }
}

/// A node that no incoming node shares its identity with stays as it is.
pub proof fn law_merge_keeps_the_rest(base: Seq<Node>, incoming: Seq<Node>, id: Identity)
    requires
        distinct_keys(base),
        has_key(base, id),
        !has_key(incoming, id),
    ensures
        has_key(merge_nodes(base, incoming), id),
        node_of(merge_nodes(base, incoming), id) == node_of(base, id),
    decreases incoming.len(),
{
    if incoming.len() > 0 {
        let front = incoming.drop_last();
        let last = incoming.last();
        let before = merge_nodes(base, front);
        assert(!has_key(front, id)) by {
            if has_key(front, id) {
                let i = choose|i: int| 0 <= i < front.len() && (#[trigger] front[i]).key@ == id;
                assert(incoming[i].key@ == id);
            }
        }
        assert(last.key@ != id) by {
            assert(incoming[incoming.len() - 1] == last);
        }
        law_merge_keeps_the_rest(base, front, id);
        lemma_merge_nodes(base, front);
        lemma_upsert_distinct(before, last);
        assert(identities(before).contains(id));
        assert(identities(upsert(before, last)).contains(id));
        lemma_upsert_lookup(before, last, id);
    }
}

/// The identities that a merge yields do not depend on which side comes
/// first, nor on how three sides are grouped.
pub proof fn law_merge_logical_effect(a: Seq<Node>, b: Seq<Node>, c: Seq<Node>)
    requires
        distinct_keys(a),
        distinct_keys(b),
    ensures
        identities(merge_nodes(a, b)) == identities(merge_nodes(b, a)),
        identities(merge_nodes(merge_nodes(a, b), c)) == identities(
            merge_nodes(a, merge_nodes(b, c)),
        ),
{
    lemma_merge_nodes(a, b);
    lemma_merge_nodes(b, a);
    lemma_merge_nodes(merge_nodes(a, b), c);
    lemma_merge_nodes(b, c);
    lemma_merge_nodes(a, merge_nodes(b, c));
    assert(identities(a).union(identities(b)) =~= identities(b).union(identities(a)));
    assert(identities(a).union(identities(b)).union(identities(c)) =~= identities(a).union(
        identities(b).union(identities(c)),
    ));
}

/// In the aggregate of a batch no identity occurs twice, an identity occurs
/// exactly when some fragment has it, and an edge exactly when some fragment
/// has it.
pub proof fn lemma_batch_contents(frags: Seq<Graph>)
    ensures
        distinct_keys(batch_nodes(frags)),
        forall|id: Identity|
            has_key(batch_nodes(frags), id) == #[trigger] batch_has_identity(frags, id),
        forall|e: Edge| batch_edges(frags).contains(e) == #[trigger] batch_has_edge(frags, e),
    decreases frags.len(),
{
    if frags.len() == 0 {
        assert forall|id: Identity|
            has_key(batch_nodes(frags), id) == #[trigger] batch_has_identity(frags, id) by {}
        assert forall|e: Edge|
            batch_edges(frags).contains(e) == #[trigger] batch_has_edge(frags, e) by {}
    } else {
        let front = frags.drop_last();
        let last = frags.last();
        lemma_batch_contents(front);
        lemma_merge_nodes(batch_nodes(front), last.nodes@);
        assert forall|id: Identity|
            has_key(batch_nodes(frags), id) == #[trigger] batch_has_identity(frags, id) by {
            assert(identities(batch_nodes(frags)).contains(id) == has_key(batch_nodes(frags), id));
            assert(identities(batch_nodes(front)).contains(id) == has_key(batch_nodes(front), id));
            assert(identities(last.nodes@).contains(id) == has_key(last.nodes@, id));
            assert(has_key(batch_nodes(front), id) == batch_has_identity(front, id));
            if batch_has_identity(front, id) {
                let k = choose|k: int| 0 <= k < front.len() && has_key((#[trigger] front[k]).nodes@, id);
                assert(frags[k] == front[k]);
            }
            if has_key(last.nodes@, id) {
                assert(frags[frags.len() - 1] == last);
            }
            if batch_has_identity(frags, id) {
                let k = choose|k: int| 0 <= k < frags.len() && has_key((#[trigger] frags[k]).nodes@, id);
                if k < front.len() {
                    assert(front[k] == frags[k]);
                }
            }
        }
        assert forall|e: Edge|
            batch_edges(frags).contains(e) == #[trigger] batch_has_edge(frags, e) by {
            let all = batch_edges(frags);
            let before = batch_edges(front);
            assert(before.contains(e) == batch_has_edge(front, e));
            if all.contains(e) {
                let i = choose|i: int| 0 <= i < all.len() && all[i] == e;
                if i < before.len() {
                    assert(before[i] == e);
                } else {
                    assert(last.edges@[i - before.len()] == e);
                    assert(frags[frags.len() - 1] == last);
                }
            }
            if batch_has_edge(front, e) {
                let k = choose|k: int| 0 <= k < front.len() && (#[trigger] front[k]).edges@.contains(e);
                assert(frags[k] == front[k]);
                let i = choose|i: int| 0 <= i < before.len() && before[i] == e;
                assert(all[i] == e);
            }
            if batch_has_edge(frags, e) {
                let k = choose|k: int| 0 <= k < frags.len() && (#[trigger] frags[k]).edges@.contains(e);
                if k < front.len() {
                    assert(front[k] == frags[k]);
                } else {
                    let i = choose|i: int| 0 <= i < last.edges@.len() && last.edges@[i] == e;
                    assert(all[before.len() + i] == e);
                }
            }
        }
    }
}

/// A fragment of a batch is a fragment of every reordering of it.
proof fn lemma_member(a: Seq<Graph>, b: Seq<Graph>, g: Graph)
    requires
        same_fragments(a, b),
        a.contains(g),
    ensures
        b.contains(g),
{
    a.to_multiset_ensures();
    b.to_multiset_ensures();
    assert(a.to_multiset().count(g) > 0);
    assert(b.to_multiset().count(g) > 0);
}

/// Taking one fragment out of a batch lowers a sum by that fragment's weight.
proof fn lemma_total_remove(frags: Seq<Graph>, weight: spec_fn(Graph) -> nat, j: int)
    requires
        0 <= j < frags.len(),
    ensures
        total(frags, weight) == total(frags.remove(j), weight) + weight(frags[j]),
    decreases frags.len(),
{
    if j == frags.len() - 1 {
        assert(frags.remove(j) == frags.drop_last());
    } else {
        lemma_total_remove(frags.drop_last(), weight, j);
        assert(frags.remove(j).drop_last() == frags.drop_last().remove(j));
        assert(frags.remove(j).last() == frags.last());
    }
}

/// A sum over a batch does not depend on the order of its fragments.
proof fn lemma_total_permutation(a: Seq<Graph>, b: Seq<Graph>, weight: spec_fn(Graph) -> nat)
    requires
        same_fragments(a, b),
    ensures
        total(a, weight) == total(b, weight),
    decreases a.len(),
{
    a.to_multiset_ensures();
    b.to_multiset_ensures();
    if a.len() == 0 {
        assert(b.len() == 0);
    } else {
        let front = a.drop_last();
        let last = a.last();
        assert(a == front.push(last));
        to_multiset_build(front, last);
        assert(a.contains(last)) by {
            assert(a[a.len() - 1] == last);
        }
        lemma_member(a, b, last);
        let j = choose|j: int| 0 <= j < b.len() && b[j] == last;
        to_multiset_remove(b, j);
        assert(front.to_multiset() =~= b.remove(j).to_multiset());
        lemma_total_permutation(front, b.remove(j), weight);
        lemma_total_remove(b, weight, j);
    }
}

/// Two fragments that each hold one node, of the same identity, merge into a
/// graph with exactly one node, whichever comes first.
pub proof fn law_one_node_per_identity(first: Graph, second: Graph)
    requires
        first.nodes@.len() == 1,
        second.nodes@.len() == 1,
        first.nodes@[0].key@ == second.nodes@[0].key@,
    ensures
        batch_nodes(seq![first, second]).len() == 1,
        batch_nodes(seq![second, first]).len() == 1,
        batch_nodes(seq![first, second])[0].key@ == first.nodes@[0].key@,
        batch_nodes(seq![second, first])[0].key@ == first.nodes@[0].key@,
{
    lemma_pair_of_one(first, second);
    lemma_pair_of_one(second, first);
}

proof fn lemma_pair_of_one(first: Graph, second: Graph)
    requires
        first.nodes@.len() == 1,
        second.nodes@.len() == 1,
        first.nodes@[0].key@ == second.nodes@[0].key@,
    ensures
        batch_nodes(seq![first, second]) == seq![second.nodes@[0]],
{
    let pair = seq![first, second];
    let empty = Seq::<Graph>::empty();
    assert(pair.drop_last() == seq![first]);
    assert(seq![first].drop_last() == empty);
    assert(batch_nodes(empty) == Seq::<Node>::empty());
    let a = first.nodes@;
    let b = second.nodes@;
    assert(a.drop_last() == Seq::<Node>::empty());
    assert(b.drop_last() == Seq::<Node>::empty());
    let none = Seq::<Node>::empty();
    assert(merge_nodes(none, a.drop_last()) == none);
    assert(!has_key(none, a[0].key@));
    assert(merge_nodes(none, a) == none.push(a[0]));
    let one = none.push(a[0]);
    assert(batch_nodes(seq![first]) == one);
    assert(merge_nodes(one, b.drop_last()) == one);
    assert(has_key(one, b[0].key@)) by {
        assert(one[0].key@ == b[0].key@);
    }
    assert(merge_nodes(one, b) == upsert(one, b[0]));
    assert(upsert(one, b[0]) == seq![b[0]]);
}

/// However many fragments hold an identity, the aggregate holds it once: two
/// places of the aggregate with the same identity are the same place.
pub proof fn law_identity_occurs_once(frags: Seq<Graph>, i: int, j: int)
    requires
        0 <= i < batch_nodes(frags).len(),
        0 <= j < batch_nodes(frags).len(),
        batch_nodes(frags)[i].key@ == batch_nodes(frags)[j].key@,
    ensures
        i == j,
        batch_has_identity(frags, batch_nodes(frags)[i].key@),
{
    lemma_batch_contents(frags);
    let all = batch_nodes(frags);
    if i < j {
        assert(all[i].key@ != all[j].key@);
    } else if j < i {
        assert(all[j].key@ != all[i].key@);
    }
    assert(has_key(all, all[i].key@));
}

/// The identities and the edges of the aggregate, and the counts taken before
/// the merge, are the same for every order of the same fragments.
pub proof fn law_merge_order_independent(a: Seq<Graph>, b: Seq<Graph>)
    requires
        same_fragments(a, b),
    ensures
        identities(batch_nodes(a)) == identities(batch_nodes(b)),
        batch_edges(a).to_set() == batch_edges(b).to_set(),
        nodes_before_merge(a) == nodes_before_merge(b),
        edges_before_merge(a) == edges_before_merge(b),
{
    lemma_batch_contents(a);
    lemma_batch_contents(b);
    assert forall|id: Identity| batch_has_identity(a, id) == batch_has_identity(b, id) by {
        if batch_has_identity(a, id) {
            let k = choose|k: int| 0 <= k < a.len() && has_key((#[trigger] a[k]).nodes@, id);
            assert(a.contains(a[k]));
            lemma_member(a, b, a[k]);
            let m = choose|m: int| 0 <= m < b.len() && b[m] == a[k];
            assert(has_key(b[m].nodes@, id));
        }
        if batch_has_identity(b, id) {
            let k = choose|k: int| 0 <= k < b.len() && has_key((#[trigger] b[k]).nodes@, id);
            assert(b.contains(b[k]));
            lemma_member(b, a, b[k]);
            let m = choose|m: int| 0 <= m < a.len() && a[m] == b[k];
            assert(has_key(a[m].nodes@, id));
        }
    }
    assert forall|e: Edge| batch_has_edge(a, e) == batch_has_edge(b, e) by {
        if batch_has_edge(a, e) {
            let k = choose|k: int| 0 <= k < a.len() && (#[trigger] a[k]).edges@.contains(e);
            assert(a.contains(a[k]));
            lemma_member(a, b, a[k]);
            let m = choose|m: int| 0 <= m < b.len() && b[m] == a[k];
            assert(b[m].edges@.contains(e));
        }
        if batch_has_edge(b, e) {
            let k = choose|k: int| 0 <= k < b.len() && (#[trigger] b[k]).edges@.contains(e);
            assert(b.contains(b[k]));
            lemma_member(b, a, b[k]);
            let m = choose|m: int| 0 <= m < a.len() && a[m] == b[k];
            assert(a[m].edges@.contains(e));
        }
    }
    assert forall|id: Identity|
        identities(batch_nodes(a)).contains(id) == identities(batch_nodes(b)).contains(id) by {
        assert(has_key(batch_nodes(a), id) == batch_has_identity(a, id));
        assert(has_key(batch_nodes(b), id) == batch_has_identity(b, id));
    }
    assert(identities(batch_nodes(a)) =~= identities(batch_nodes(b)));
    assert forall|e: Edge|
        batch_edges(a).to_set().contains(e) == batch_edges(b).to_set().contains(e) by {
        assert(batch_edges(a).contains(e) == batch_has_edge(a, e));
        assert(batch_edges(b).contains(e) == batch_has_edge(b, e));
    }
    assert(batch_edges(a).to_set() =~= batch_edges(b).to_set());
    lemma_total_permutation(a, b, |g: Graph| g.nodes@.len());
    lemma_total_permutation(a, b, |g: Graph| g.edges@.len());
}

} // verus!

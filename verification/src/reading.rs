//! How a message is read back, and the proof that reading what was written
//! gives the value of the graph that was written.

use vstd::prelude::*;
use vstd::utf8::{decode_utf8, encode_utf8_decode_utf8};
use crate::event::{Identity, Node, NodeKey, NodeView, ProcessState};
use crate::graph::{graph_view, Edge, EdgeView, GraphView};
use crate::wire::{edge_message, edges_field, entries_of, field_key, graph_message};
use crate::wire::{key_message, length_delimited, messages_of, node_entry, node_message};
use crate::wire::{nodes_field, repeated_field, state_number, string_field, subgraphs_message};
use crate::wire::{uint64_field, varint};

verus! {

/// The single byte that is the key of a field with a small number.
pub open spec fn key_byte(field: nat, wire_type: nat) -> u8 {
    (field * 8 + wire_type) as u8
}

/// Whether `s` begins with the byte `b`.
pub open spec fn starts_with(s: Seq<u8>, b: u8) -> bool {
    s.len() > 0 && s[0] == b
}

/// The base-128 integer at the front of `s`, and how many bytes it takes.
pub open spec fn read_varint(s: Seq<u8>) -> (nat, int)
    decreases s.len(),
{
    if s.len() == 0 {
        (0, 0)
    } else if s[0] < 128 {
        (s[0] as nat, 1)
    } else {
        let rest = read_varint(s.drop_first());
        ((s[0] - 128) as nat + 128 * rest.0, rest.1 + 1)
    }
}

/// The body of the length-prefixed field at the front of `s`, and what
/// follows the field.
pub open spec fn read_delimited(s: Seq<u8>) -> (Seq<u8>, Seq<u8>) {
    let header = read_varint(s.drop_first());
    let start = 1 + header.1;
    (s.subrange(start, start + header.0), s.subrange(start + header.0, s.len() as int))
}

/// The integer field with the key `key` at the front of `s`, zero where `s`
/// begins otherwise, and what follows.
pub open spec fn read_uint64_field(s: Seq<u8>, key: u8) -> (u64, Seq<u8>) {
    if starts_with(s, key) {
        let value = read_varint(s.drop_first());
        (value.0 as u64, s.subrange(1 + value.1, s.len() as int))
    } else {
        (0, s)
    }
}

/// The string field with the key `key` at the front of `s`, empty where `s`
/// begins otherwise, and what follows.
pub open spec fn read_string_field(s: Seq<u8>, key: u8) -> (Seq<char>, Seq<u8>) {
    if starts_with(s, key) {
        let parts = read_delimited(s);
        (decode_utf8(parts.0), parts.1)
    } else {
        (Seq::empty(), s)
    }
}

/// The bodies of the run of fields with the key `key` at the front of `s`,
/// and what follows the run.
pub open spec fn read_repeated(s: Seq<u8>, key: u8) -> (Seq<Seq<u8>>, Seq<u8>)
    decreases s.len(),
{
    if starts_with(s, key) {
        let first = read_delimited(s);
        if first.1.len() < s.len() {
            let more = read_repeated(first.1, key);
            (seq![first.0] + more.0, more.1)
        } else {
            (Seq::empty(), s)
        }
    } else {
        (Seq::empty(), s)
    }
}

/// The state that a number stands for.
pub open spec fn number_state(n: u64) -> ProcessState {
    if n == 0 {
        ProcessState::Created
    } else if n == 1 {
        ProcessState::Terminated
    } else {
        ProcessState::Existing
    }
}

/// The identity that a key message holds.
pub open spec fn read_key(s: Seq<u8>) -> Identity {
    let id = read_uint64_field(s, key_byte(1, 0));
    let host = read_string_field(id.1, key_byte(2, 2));
    Identity { process_id: id.0, hostname: host.0 }
}

/// The node that a map entry holds.
pub open spec fn read_entry(s: Seq<u8>) -> NodeView {
    let key = read_delimited(s);
    let body = read_delimited(key.1).0;
    let name = read_string_field(body, key_byte(1, 2));
    let state = read_uint64_field(name.1, key_byte(2, 0));
    let time = read_uint64_field(state.1, key_byte(3, 0));
    NodeView {
        key: read_key(key.0),
        process_name: name.0,
        state: number_state(state.0),
        timestamp: time.0,
    }
}

/// The edge that an edge message holds.
pub open spec fn read_edge(s: Seq<u8>) -> EdgeView {
    let from = read_delimited(s);
    let to = read_delimited(from.1);
    let name = read_string_field(to.1, key_byte(3, 2));
    EdgeView { from: read_key(from.0), to: read_key(to.0), edge_name: name.0 }
}

/// The graph that a graph message holds.
pub open spec fn read_graph(s: Seq<u8>) -> GraphView {
    let nodes = read_repeated(s, key_byte(1, 2));
    let edges = read_repeated(nodes.1, key_byte(2, 2));
    let time = read_uint64_field(edges.1, key_byte(3, 0));
    GraphView {
        nodes: nodes.0.map_values(|b: Seq<u8>| read_entry(b)),
        edges: edges.0.map_values(|b: Seq<u8>| read_edge(b)),
        timestamp: time.0,
    }
}

/// The graph that is the first subgraph of an envelope.
pub open spec fn read_subgraphs(s: Seq<u8>) -> GraphView {
    read_graph(read_delimited(s).0)
}

proof fn lemma_small_key(field: nat, wire_type: nat)
    requires
        1 <= field <= 15,
        wire_type <= 2,
    ensures
        field_key(field, wire_type) == seq![key_byte(field, wire_type)],
{
    assert(field * 8 + wire_type < 128);
}

proof fn lemma_read_varint(v: nat, rest: Seq<u8>)
    ensures
        read_varint(varint(v) + rest) == (v, varint(v).len() as int),
        varint(v).len() >= 1,
    decreases v,
{
    let s = varint(v) + rest;
    if v < 128 {
        assert(s[0] == v as u8);
    } else {
        lemma_read_varint(v / 128, rest);
        assert(s[0] == (v % 128 + 128) as u8);
        assert(s.drop_first() =~= varint(v / 128) + rest);
    }
}

proof fn lemma_read_delimited(field: nat, body: Seq<u8>, rest: Seq<u8>)
    requires
        1 <= field <= 15,
    ensures
        read_delimited(length_delimited(field, body) + rest) == (body, rest),
        starts_with(length_delimited(field, body) + rest, key_byte(field, 2)),
        length_delimited(field, body).len() >= 1,
{
    let s = length_delimited(field, body) + rest;
    lemma_small_key(field, 2);
    assert(s[0] == key_byte(field, 2));
    assert(s.drop_first() =~= varint(body.len()) + (body + rest));
    lemma_read_varint(body.len(), body + rest);
    let n = varint(body.len()).len() as int;
    assert(s.subrange(1 + n, 1 + n + body.len()) =~= body);
    assert(s.subrange(1 + n + body.len(), s.len() as int) =~= rest);
}

proof fn lemma_read_uint64_field(field: nat, v: u64, rest: Seq<u8>)
    requires
        1 <= field <= 15,
        !starts_with(rest, key_byte(field, 0)),
    ensures
        read_uint64_field(uint64_field(field, v) + rest, key_byte(field, 0)) == (v, rest),
        v != 0 ==> starts_with(uint64_field(field, v) + rest, key_byte(field, 0)),
        v == 0 ==> uint64_field(field, v) + rest == rest,
{
    let s = uint64_field(field, v) + rest;
    if v == 0 {
        assert(s =~= rest);
    } else {
        lemma_small_key(field, 0);
        assert(s[0] == key_byte(field, 0));
        assert(s.drop_first() =~= varint(v as nat) + rest);
        lemma_read_varint(v as nat, rest);
        let n = varint(v as nat).len() as int;
        assert(s.subrange(1 + n, s.len() as int) =~= rest);
    }
}

proof fn lemma_read_string_field(field: nat, text: Seq<char>, rest: Seq<u8>)
    requires
        1 <= field <= 15,
        !starts_with(rest, key_byte(field, 2)),
    ensures
        read_string_field(string_field(field, text) + rest, key_byte(field, 2)) == (text, rest),
        text.len() != 0 ==> starts_with(string_field(field, text) + rest, key_byte(field, 2)),
        text.len() == 0 ==> string_field(field, text) + rest == rest,
{
    let s = string_field(field, text) + rest;
    if text.len() == 0 {
        assert(s =~= rest);
        assert(text =~= Seq::<char>::empty());
    } else {
        lemma_read_delimited(field, vstd::utf8::encode_utf8(text), rest);
        encode_utf8_decode_utf8(text);
    }
}

proof fn lemma_repeated_front(field: nat, bodies: Seq<Seq<u8>>)
    requires
        bodies.len() > 0,
    ensures
        repeated_field(field, bodies) == length_delimited(field, bodies.first()) + repeated_field(
            field,
            bodies.drop_first(),
        ),
    decreases bodies.len(),
{
    if bodies.len() == 1 {
        assert(bodies.drop_last() =~= Seq::<Seq<u8>>::empty());
        assert(bodies.drop_first() =~= Seq::<Seq<u8>>::empty());
        assert(repeated_field(field, bodies) =~= length_delimited(field, bodies.first())
            + repeated_field(field, bodies.drop_first()));
    } else {
        let front = bodies.drop_last();
        lemma_repeated_front(field, front);
        assert(front.first() == bodies.first());
        assert(bodies.drop_first().drop_last() =~= front.drop_first());
        assert(bodies.drop_first().last() == bodies.last());
        assert(repeated_field(field, bodies) =~= length_delimited(field, bodies.first())
            + repeated_field(field, bodies.drop_first()));
    }
}

proof fn lemma_read_repeated(field: nat, bodies: Seq<Seq<u8>>, rest: Seq<u8>)
    requires
        1 <= field <= 15,
        !starts_with(rest, key_byte(field, 2)),
    ensures
        read_repeated(repeated_field(field, bodies) + rest, key_byte(field, 2)) == (bodies, rest),
        bodies.len() != 0 ==> starts_with(
            repeated_field(field, bodies) + rest,
            key_byte(field, 2),
        ),
        bodies.len() == 0 ==> repeated_field(field, bodies) + rest == rest,
    decreases bodies.len(),
{
    let s = repeated_field(field, bodies) + rest;
    if bodies.len() == 0 {
        assert(s =~= rest);
        assert(bodies =~= Seq::<Seq<u8>>::empty());
    } else {
        let tail = repeated_field(field, bodies.drop_first()) + rest;
        lemma_repeated_front(field, bodies);
        assert(s =~= length_delimited(field, bodies.first()) + tail);
        lemma_read_delimited(field, bodies.first(), tail);
        lemma_read_repeated(field, bodies.drop_first(), rest);
        assert(seq![bodies.first()] + bodies.drop_first() =~= bodies);
    }
}

/// Reading the message of a key gives the key's identity.
pub proof fn lemma_read_key(key: NodeKey)
    ensures
        read_key(key_message(key)) == key@,
{
    let host = string_field(2, key.hostname@);
    lemma_read_string_field(2, key.hostname@, Seq::empty());
    assert(host + Seq::<u8>::empty() =~= host);
    lemma_read_uint64_field(1, key.process_id, host);
}

/// Reading the map entry of a node gives the node's value.
pub proof fn lemma_read_entry(node: Node)
    ensures
        read_entry(node_entry(node)) == node@,
{
    let none = Seq::<u8>::empty();
    let key = key_message(node.key);
    let body = node_message(node);
    let second = length_delimited(2, body);
    lemma_read_delimited(1, key, second);
    lemma_read_delimited(2, body, none);
    assert(second + none =~= second);
    lemma_read_key(node.key);
    let state = uint64_field(2, state_number(node.state));
    let time = uint64_field(3, node.timestamp);
    lemma_read_uint64_field(3, node.timestamp, none);
    assert(time + none =~= time);
    lemma_read_uint64_field(2, state_number(node.state), time);
    lemma_read_string_field(1, node.process_name@, state + time);
    assert(body =~= string_field(1, node.process_name@) + (state + time));
}

/// Reading the message of an edge gives the edge's value.
pub proof fn lemma_read_edge(edge: Edge)
    ensures
        read_edge(edge_message(edge)) == edge@,
{
    let none = Seq::<u8>::empty();
    let from = key_message(edge.from);
    let to = key_message(edge.to);
    let name = string_field(3, edge.edge_name@);
    lemma_read_string_field(3, edge.edge_name@, none);
    assert(name + none =~= name);
    lemma_read_delimited(2, to, name);
    lemma_read_delimited(1, from, length_delimited(2, to) + name);
    assert(edge_message(edge) =~= length_delimited(1, from) + (length_delimited(2, to) + name));
    lemma_read_key(edge.from);
    lemma_read_key(edge.to);
}

/// The message of a graph holds the graph without loss: read back, it gives
/// every node with its identity and attributes, every edge, and the
/// timestamp, in the order in which they were written.
pub proof fn law_message_reads_back(nodes: Seq<Node>, edges: Seq<Edge>, timestamp: u64)
    ensures
        read_graph(graph_message(nodes, edges, timestamp)) == graph_view(nodes, edges, timestamp),
        read_subgraphs(subgraphs_message(nodes, edges, timestamp)) == graph_view(
            nodes,
            edges,
            timestamp,
        ),
{
    let none = Seq::<u8>::empty();
    let time = uint64_field(3, timestamp);
    let message = graph_message(nodes, edges, timestamp);
    lemma_read_uint64_field(3, timestamp, none);
    assert(time + none =~= time);
    lemma_read_repeated(2, messages_of(edges), time);
    lemma_read_repeated(1, entries_of(nodes), edges_field(edges) + time);
    assert(message =~= nodes_field(nodes) + (edges_field(edges) + time));
    let read = read_graph(message);
    let want = graph_view(nodes, edges, timestamp);
    assert(read.nodes =~= want.nodes) by {
        assert forall|k: int| 0 <= k < nodes.len() implies read_entry(
            #[trigger] entries_of(nodes)[k],
        ) == nodes[k]@ by {
            lemma_read_entry(nodes[k]);
        }
    }
    assert(read.edges =~= want.edges) by {
        assert forall|k: int| 0 <= k < edges.len() implies read_edge(
            #[trigger] messages_of(edges)[k],
        ) == edges[k]@ by {
            lemma_read_edge(edges[k]);
        }
    }
    lemma_read_delimited(1, message, none);
    assert(subgraphs_message(nodes, edges, timestamp) + none =~= subgraphs_message(
        nodes,
        edges,
        timestamp,
    ));
}

} // verus!

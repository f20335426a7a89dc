//! The binary message format of a graph: protocol-buffer framing, in which
//! a message is a sequence of fields, each a key, and a value that is a
//! base-128 integer or a length-prefixed run of bytes.
//!
//! | message   | field 1            | field 2          | field 3         |
//! |-----------|--------------------|------------------|-----------------|
//! | key       | process id, uint64 | hostname, string |                 |
//! | process   | name, string       | state, uint64    | time, uint64    |
//! | entry     | key                | process          |                 |
//! | edge      | source key         | target key       | name, string    |
//! | graph     | entries, repeated  | edges, repeated  | time, uint64    |
//! | subgraphs | graphs, repeated   |                  |                 |
//!
//! As in proto3, an integer that is zero and a string that is empty are left
//! out; a nested message is always written.

use vstd::prelude::*;
use vstd::utf8::encode_utf8;
use crate::event::{Node, NodeKey, ProcessState};
use crate::graph::{Edge, Graph};

verus! {

/// The wire type of a base-128 integer.
pub const WIRE_VARINT: u64 = 0;

/// The wire type of a length-prefixed run of bytes.
pub const WIRE_LENGTH_DELIMITED: u64 = 2;

/// The largest field number of the format.
pub const MAX_FIELD: u64 = 0x1FFF_FFFF;

/// `v` in base 128, least significant group first, with the high bit set on
/// every byte but the last.
pub open spec fn varint(v: nat) -> Seq<u8>
    decreases v,
{
    if v < 128 {
        seq![v as u8]
    } else {
        seq![(v % 128 + 128) as u8] + varint(v / 128)
    }
}

/// The key that opens a field: its number and wire type as one integer.
pub open spec fn field_key(field: nat, wire_type: nat) -> Seq<u8> {
    varint(field * 8 + wire_type)
}

/// An integer field; nothing when the value is zero.
pub open spec fn uint64_field(field: nat, v: u64) -> Seq<u8> {
    if v == 0 {
        Seq::empty()
    } else {
        field_key(field, 0) + varint(v as nat)
    }
}

/// A field that holds `body` behind its length.
pub open spec fn length_delimited(field: nat, body: Seq<u8>) -> Seq<u8> {
    field_key(field, 2) + varint(body.len()) + body
}

/// A string field, in UTF-8; nothing when the string is empty.
pub open spec fn string_field(field: nat, s: Seq<char>) -> Seq<u8> {
    if s.len() == 0 {
        Seq::empty()
    } else {
        length_delimited(field, encode_utf8(s))
    }
}

/// The number that stands for a lifecycle state.
pub open spec fn state_number(state: ProcessState) -> u64 {
    match state {
        ProcessState::Created => 0,
        ProcessState::Terminated => 1,
        ProcessState::Existing => 2,
    }
}

/// The message of a node key.
pub open spec fn key_message(key: NodeKey) -> Seq<u8> {
    uint64_field(1, key.process_id) + string_field(2, key.hostname@)
}

/// The message of a node's attributes.
pub open spec fn node_message(node: Node) -> Seq<u8> {
    string_field(1, node.process_name@) + uint64_field(2, state_number(node.state))
        + uint64_field(3, node.timestamp)
}

/// The map entry of a node: its key, then its attributes.
pub open spec fn node_entry(node: Node) -> Seq<u8> {
    length_delimited(1, key_message(node.key)) + length_delimited(2, node_message(node))
}

/// The message of an edge.
pub open spec fn edge_message(edge: Edge) -> Seq<u8> {
    length_delimited(1, key_message(edge.from)) + length_delimited(2, key_message(edge.to))
        + string_field(3, edge.edge_name@)
}

/// The messages `bodies`, each as one occurrence of a repeated field, in
/// order.
pub open spec fn repeated_field(field: nat, bodies: Seq<Seq<u8>>) -> Seq<u8>
    decreases bodies.len(),
{
    if bodies.len() == 0 {
        Seq::empty()
    } else {
        repeated_field(field, bodies.drop_last()) + length_delimited(field, bodies.last())
    }
}

/// The map entries of `nodes`, in order.
pub open spec fn entries_of(nodes: Seq<Node>) -> Seq<Seq<u8>> {
    nodes.map_values(|n: Node| node_entry(n))
}

/// The messages of `edges`, in order.
pub open spec fn messages_of(edges: Seq<Edge>) -> Seq<Seq<u8>> {
    edges.map_values(|e: Edge| edge_message(e))
}

/// The entries of `nodes`, each as field 1 of the graph, in order.
pub open spec fn nodes_field(nodes: Seq<Node>) -> Seq<u8> {
    repeated_field(1, entries_of(nodes))
}

/// The messages of `edges`, each as field 2 of the graph, in order.
pub open spec fn edges_field(edges: Seq<Edge>) -> Seq<u8> {
    repeated_field(2, messages_of(edges))
}

/// The message of a graph.
pub open spec fn graph_message(nodes: Seq<Node>, edges: Seq<Edge>, timestamp: u64) -> Seq<u8> {
    nodes_field(nodes) + edges_field(edges) + uint64_field(3, timestamp)
}

/// The envelope that holds exactly one graph.
pub open spec fn subgraphs_message(nodes: Seq<Node>, edges: Seq<Edge>, timestamp: u64) -> Seq<
    u8,
> {
    length_delimited(1, graph_message(nodes, edges, timestamp))
}

/// Appends `value` to `buf` as a base-128 integer.
///
/// Calls `prost::encoding::encode_varint`. Taken on trust: that it appends
/// to the vector, and nothing else, the bytes that [`varint`] gives, which
/// is what its loop of at most ten steps writes for a 64-bit value.
#[verifier::external_body]
fn put_varint(value: u64, buf: &mut Vec<u8>)
    ensures
        final(buf)@ == old(buf)@ + varint(value as nat),
{
    prost::encoding::encode_varint(value, buf);
}

/// Appends `bytes` to `buf`.
fn put_bytes(buf: &mut Vec<u8>, bytes: &[u8])
    ensures
        final(buf)@ == old(buf)@ + bytes@,
{
    let mut i: usize = 0;
    while i < bytes.len()
        invariant
            i <= bytes@.len(),
            buf@ == old(buf)@ + bytes@.take(i as int),
        decreases bytes.len() - i,
    {
        buf.push(bytes[i]);
        assert(buf@ =~= old(buf)@ + bytes@.take(i + 1));
        i += 1;
    }
    assert(bytes@.take(i as int) == bytes@);
}

/// Appends an integer field to `buf`.
fn put_uint64_field(buf: &mut Vec<u8>, field: u64, v: u64)
    requires
        field <= MAX_FIELD,
    ensures
        final(buf)@ == old(buf)@ + uint64_field(field as nat, v),
{
    if v != 0 {
        put_varint(field * 8 + WIRE_VARINT, buf);
        put_varint(v, buf);
    }
    assert(buf@ =~= old(buf)@ + uint64_field(field as nat, v));
}

/// Appends a length-prefixed field to `buf`.
fn put_length_delimited(buf: &mut Vec<u8>, field: u64, body: &[u8])
    requires
        field <= MAX_FIELD,
    ensures
        final(buf)@ == old(buf)@ + length_delimited(field as nat, body@),
{
    put_varint(field * 8 + WIRE_LENGTH_DELIMITED, buf);
    put_varint(body.len() as u64, buf);
    put_bytes(buf, body);
    assert(buf@ =~= old(buf)@ + length_delimited(field as nat, body@));
}

/// Appends a string field to `buf`.
fn put_string_field(buf: &mut Vec<u8>, field: u64, s: &str)
    requires
        field <= MAX_FIELD,
    ensures
        final(buf)@ == old(buf)@ + string_field(field as nat, s@),
{
    if !s.is_empty() {
        put_length_delimited(buf, field, s.as_bytes());
    }
    assert(buf@ =~= old(buf)@ + string_field(field as nat, s@));
}

/// The number that a lifecycle state is written as.
pub fn state_to_number(state: ProcessState) -> (r: u64)
    ensures
        r == state_number(state),
{
    match state {
        ProcessState::Created => 0,
        ProcessState::Terminated => 1,
        ProcessState::Existing => 2,
    }
}

/// Encodes a node key.
pub fn encode_key(key: &NodeKey) -> (out: Vec<u8>)
    ensures
        out@ == key_message(*key),
{
    let mut out: Vec<u8> = Vec::new();
    put_uint64_field(&mut out, 1, key.process_id);
    put_string_field(&mut out, 2, key.hostname.as_str());
    assert(out@ =~= key_message(*key));
    out
}

/// Encodes the attributes of a node.
pub fn encode_node(node: &Node) -> (out: Vec<u8>)
    ensures
        out@ == node_message(*node),
{
    let mut out: Vec<u8> = Vec::new();
    put_string_field(&mut out, 1, node.process_name.as_str());
    put_uint64_field(&mut out, 2, state_to_number(node.state));
    put_uint64_field(&mut out, 3, node.timestamp);
    assert(out@ =~= node_message(*node));
    out
}

/// Encodes the map entry of a node.
pub fn encode_entry(node: &Node) -> (out: Vec<u8>)
    ensures
        out@ == node_entry(*node),
{
    let key = encode_key(&node.key);
    let body = encode_node(node);
    let mut out: Vec<u8> = Vec::new();
    put_length_delimited(&mut out, 1, key.as_slice());
    put_length_delimited(&mut out, 2, body.as_slice());
    assert(out@ =~= node_entry(*node));
    out
}

/// Encodes an edge.
pub fn encode_edge(edge: &Edge) -> (out: Vec<u8>)
    ensures
        out@ == edge_message(*edge),
{
    let from = encode_key(&edge.from);
    let to = encode_key(&edge.to);
    let mut out: Vec<u8> = Vec::new();
    put_length_delimited(&mut out, 1, from.as_slice());
    put_length_delimited(&mut out, 2, to.as_slice());
    put_string_field(&mut out, 3, edge.edge_name.as_str());
    assert(out@ =~= edge_message(*edge));
    out
}

/// Encodes a graph: its nodes and its edges in the order it holds them, then
/// its timestamp.
pub fn encode_graph(graph: &Graph) -> (out: Vec<u8>)
    ensures
        out@ == graph_message(graph.nodes@, graph.edges@, graph.timestamp),
{
    let mut out: Vec<u8> = Vec::new();
    let mut i: usize = 0;
    while i < graph.nodes.len()
        invariant
            i <= graph.nodes@.len(),
            out@ == nodes_field(graph.nodes@.take(i as int)),
        decreases graph.nodes.len() - i,
    {
        let entry = encode_entry(&graph.nodes[i]);
        proof {
            let next = entries_of(graph.nodes@.take(i + 1));
            assert(next.drop_last() =~= entries_of(graph.nodes@.take(i as int)));
            assert(next.last() == node_entry(graph.nodes@[i as int]));
        }
        put_length_delimited(&mut out, 1, entry.as_slice());
        i += 1;
    }
    assert(graph.nodes@.take(i as int) == graph.nodes@);
    let mut j: usize = 0;
    while j < graph.edges.len()
        invariant
            j <= graph.edges@.len(),
            out@ == nodes_field(graph.nodes@) + edges_field(graph.edges@.take(j as int)),
        decreases graph.edges.len() - j,
    {
        let message = encode_edge(&graph.edges[j]);
        proof {
            let next = messages_of(graph.edges@.take(j + 1));
            assert(next.drop_last() =~= messages_of(graph.edges@.take(j as int)));
            assert(next.last() == edge_message(graph.edges@[j as int]));
        }
        put_length_delimited(&mut out, 2, message.as_slice());
        assert(out@ =~= nodes_field(graph.nodes@) + edges_field(graph.edges@.take(j + 1)));
        j += 1;
    }
    assert(graph.edges@.take(j as int) == graph.edges@);
    put_uint64_field(&mut out, 3, graph.timestamp);
    out
}

/// Appends to `out` the envelope that holds `graph` as its only subgraph.
pub fn encode_subgraphs(graph: &Graph, out: &mut Vec<u8>)
    ensures
        final(out)@ == old(out)@ + subgraphs_message(
            graph.nodes@,
            graph.edges@,
            graph.timestamp,
        ),
{
    let body = encode_graph(graph);
    put_length_delimited(out, 1, body.as_slice());
}

} // verus!

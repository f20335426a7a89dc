//! The codec: merges the graphs of a batch and turns the aggregate into at
//! most one compressed payload.

use vstd::prelude::*;
use crate::batch::{batch_edges, batch_has_edge, batch_has_identity, batch_nodes};
use crate::batch::{lemma_batch_contents, merge_batch};
use crate::graph::{has_key, Graph};
use crate::reading::{law_message_reads_back, read_subgraphs};
use crate::wire::{encode_subgraphs, subgraphs_message};

verus! {

/// The level at which every payload is compressed.
pub const COMPRESSION_LEVEL: i32 = 4;

/// The longest message that the format can frame.
pub const MAX_MESSAGE_LEN: usize = 0x7FFF_FFFF;

/// Declares `std::io::Error`, which the library carries and does not look
/// into.
#[verifier::external_type_specification]
#[verifier::external_body]
pub struct ExIoError(std::io::Error);

/// The Zstandard frame that the streaming compressor makes of `data` at
/// `level`.
pub uninterp spec fn zstd_frame(data: Seq<u8>, level: i32) -> Seq<u8>;

/// Compresses `source` and appends the frame to `destination`.
///
/// Calls `zstd::stream::copy_encode`. Taken on trust: that on success the
/// destination has grown by one frame, which depends on the source bytes and
/// the level alone. Nothing is claimed of the destination after a failure.
#[verifier::external_body]
fn compress_into(source: &Vec<u8>, destination: &mut Vec<u8>, level: i32) -> (r: Result<
    (),
    std::io::Error,
>)
    ensures
        r is Ok ==> final(destination)@ == old(destination)@ + zstd_frame(source@, level),
{
    zstd::stream::copy_encode(std::io::Cursor::new(source), destination, level)
}

/// Decompresses one payload.
///
/// Calls `zstd::stream::decode_all`. Taken on trust: that decoding, where it
/// succeeds, undoes the compression: of a frame that the compressor made of
/// some bytes at the library's level it hands out those bytes.
#[verifier::external_body]
fn decompress(payload: &[u8]) -> (r: Result<Vec<u8>, std::io::Error>)
    ensures
        r is Ok ==> forall|data: Seq<u8>|
            payload@ == #[trigger] zstd_frame(data, COMPRESSION_LEVEL) ==> r->Ok_0@ == data,
{
    zstd::stream::decode_all(payload)
}

/// Why a batch could not be turned into a payload.
#[derive(Debug)]
pub enum SubgraphSerializerError {
    /// The compressor failed.
    Io(std::io::Error),
    /// The message is longer than the format can frame.
    EncodeError { required: usize, remaining: usize },
}

impl SubgraphSerializerError {
    /// A description of the error for people.
    pub fn message(&self) -> (r: String)
        ensures
            r@ == (match *self {
                SubgraphSerializerError::Io(_) => "IO"@,
                SubgraphSerializerError::EncodeError { .. } => "EncodeError"@,
            }),
    {
        match self {
            SubgraphSerializerError::Io(_) => "IO".to_owned(),
            SubgraphSerializerError::EncodeError { .. } => "EncodeError".to_owned(),
        }
    }
}

/// Serializes the graphs that a batch of events produced. It owns the two
/// buffers that it works in and uses them again on every call.
#[derive(Clone, Debug)]
pub struct SubgraphSerializer {
    proto: Vec<u8>,
    compressed: Vec<u8>,
}

impl Default for SubgraphSerializer {
    fn default() -> (r: Self)
        ensures
            r.buffers() == (Seq::<u8>::empty(), Seq::<u8>::empty()),
    {
        SubgraphSerializer { proto: Vec::new(), compressed: Vec::new() }
    }
}

/// Whether a batch merges into a graph without nodes and without edges.
pub open spec fn merges_to_nothing(frags: Seq<Graph>) -> bool {
    batch_nodes(frags).len() == 0 && batch_edges(frags).len() == 0
}

/// The message that holds the aggregate of a batch as its only subgraph.
pub open spec fn batch_message(frags: Seq<Graph>) -> Seq<u8> {
    subgraphs_message(batch_nodes(frags), batch_edges(frags), 0)
}

/// What is owed for a graph whose envelope is `message`, and which has
/// neither nodes nor edges exactly when `nothing` holds: no payload and
/// untouched buffers for nothing; else one payload, the compressed envelope,
/// or an error: the encode error exactly when the envelope is over the
/// limit, the compressor's own otherwise.
pub open spec fn encoding_outcome(
    r: Result<Vec<Vec<u8>>, SubgraphSerializerError>,
    nothing: bool,
    message: Seq<u8>,
    untouched: bool,
) -> bool {
    match r {
        Ok(payloads) => if nothing {
            payloads@.len() == 0 && untouched
        } else {
            message.len() <= MAX_MESSAGE_LEN && payloads@.len() == 1 && payloads@[0]@
                == zstd_frame(message, COMPRESSION_LEVEL)
        },
        Err(SubgraphSerializerError::EncodeError { required, remaining }) => !nothing
            && message.len() > MAX_MESSAGE_LEN && required == message.len() && remaining
            == MAX_MESSAGE_LEN,
        Err(SubgraphSerializerError::Io(_)) => !nothing && message.len() <= MAX_MESSAGE_LEN,
    }
}

/// What the compressor's outcome makes of a batch: the one payload that
/// `compressed` holds, or the compressor's error.
pub fn finish_payload(outcome: Result<(), std::io::Error>, compressed: &Vec<u8>) -> (r: Result<
    Vec<Vec<u8>>,
    SubgraphSerializerError,
>)
    ensures
        match outcome {
            Ok(_) => r is Ok && r->Ok_0@.len() == 1 && r->Ok_0@[0]@ == compressed@,
            Err(e) => r is Err && r->Err_0 == SubgraphSerializerError::Io(e),
        },
{
    match outcome {
        Ok(_) => {
            let mut payload: Vec<u8> = Vec::new();
            let mut i: usize = 0;
            while i < compressed.len()
                invariant
                    i <= compressed@.len(),
                    payload@ == compressed@.take(i as int),
                decreases compressed.len() - i,
            {
                payload.push(compressed[i]);
                assert(payload@ =~= compressed@.take(i + 1));
                i += 1;
            }
            assert(compressed@.take(i as int) == compressed@);
            let mut payloads: Vec<Vec<u8>> = Vec::new();
            payloads.push(payload);
            Ok(payloads)
        },
        Err(e) => Err(SubgraphSerializerError::Io(e)),
    }
}

/// Whether `message` is what every payload that is a frame of some bytes
/// decompresses to: those bytes.
pub open spec fn decompressed(payload: Seq<u8>, message: Seq<u8>) -> bool {
    forall|data: Seq<u8>|
        payload == #[trigger] zstd_frame(data, COMPRESSION_LEVEL) ==> message == data
}

/// The message inside a payload, or the decompressor's error.
pub fn read_payload(payload: &[u8]) -> (r: Result<Vec<u8>, SubgraphSerializerError>)
    ensures
        match r {
            Ok(message) => decompressed(payload@, message@),
            Err(e) => e is Io,
        },
{
    match decompress(payload) {
        Ok(message) => Ok(message),
        Err(e) => Err(SubgraphSerializerError::Io(e)),
    }
}

/// Whether no fragment holds a node or an edge.
pub open spec fn all_empty(frags: Seq<Graph>) -> bool {
    forall|k: int|
        0 <= k < frags.len() ==> (#[trigger] frags[k]).nodes@.len() == 0 && frags[k].edges@.len()
            == 0
}

/// A batch merges into nothing, and so gives no payload, exactly when none
/// of its fragments holds a node or an edge.
pub proof fn law_empty_batch(frags: Seq<Graph>)
    ensures
        merges_to_nothing(frags) == all_empty(frags),
{
    lemma_batch_contents(frags);
    let nodes = batch_nodes(frags);
    let edges = batch_edges(frags);
    if all_empty(frags) {
        if nodes.len() > 0 {
            assert(has_key(nodes, nodes[0].key@));
            assert(batch_has_identity(frags, nodes[0].key@));
        }
        if edges.len() > 0 {
            assert(edges.contains(edges[0]));
            assert(batch_has_edge(frags, edges[0]));
        }
    }
    if merges_to_nothing(frags) {
        assert forall|k: int| 0 <= k < frags.len() implies (#[trigger] frags[k]).nodes@.len() == 0
            && frags[k].edges@.len() == 0 by {
            if frags[k].nodes@.len() > 0 {
                let id = frags[k].nodes@[0].key@;
                assert(has_key(frags[k].nodes@, id));
                assert(batch_has_identity(frags, id));
                assert(has_key(nodes, id));
            }
            if frags[k].edges@.len() > 0 {
                let e = frags[k].edges@[0];
                assert(frags[k].edges@.contains(e));
                assert(batch_has_edge(frags, e));
                assert(edges.contains(e));
            }
        }
    }
}

/// The payload of a graph, decompressed and read back, gives the graph: its
/// nodes with their identities and attributes, its edges and its timestamp.
pub proof fn law_round_trip(graph: Graph, payload: Seq<u8>, message: Seq<u8>)
    requires
        payload == zstd_frame(
            subgraphs_message(graph.nodes@, graph.edges@, graph.timestamp),
            COMPRESSION_LEVEL,
        ),
        decompressed(payload, message),
    ensures
        read_subgraphs(message) == graph@,
{
    law_message_reads_back(graph.nodes@, graph.edges@, graph.timestamp);
}

impl SubgraphSerializer {
    /// The contents of the message buffer and of the compression buffer.
    pub closed spec fn buffers(&self) -> (Seq<u8>, Seq<u8>) {
        (self.proto@, self.compressed@)
    }

    /// A serializer that works in the two buffers given.
    pub fn new(proto: Vec<u8>, compressed: Vec<u8>) -> (r: Self)
        ensures
            r.buffers() == (proto@, compressed@),
    {
        Self { proto, compressed }
    }

    /// Encodes one aggregate graph.
    ///
    /// A graph without nodes and edges gives no payload, and the buffers
    /// are not touched. Any other gives exactly one payload: the envelope
    /// of the graph, compressed at level 4. An envelope over the format's
    /// limit and a failure of the compressor are errors, and give no
    /// payload.
    pub fn encode(&mut self, aggregate: &Graph) -> (r: Result<
        Vec<Vec<u8>>,
        SubgraphSerializerError,
    >)
        ensures
            encoding_outcome(
                r,
                aggregate.nodes@.len() == 0 && aggregate.edges@.len() == 0,
                subgraphs_message(aggregate.nodes@, aggregate.edges@, aggregate.timestamp),
                final(self).buffers() == old(self).buffers(),
            ),
    {
        if aggregate.is_empty() {
            return Ok(Vec::new());
        }
        self.proto.clear();
        self.compressed.clear();
        encode_subgraphs(aggregate, &mut self.proto);
        let ghost message = subgraphs_message(
            aggregate.nodes@,
            aggregate.edges@,
            aggregate.timestamp,
        );
        assert(self.proto@ =~= message);
        if self.proto.len() > MAX_MESSAGE_LEN {
            return Err(
                SubgraphSerializerError::EncodeError {
                    required: self.proto.len(),
                    remaining: MAX_MESSAGE_LEN,
                },
            );
        }
        let outcome = compress_into(&self.proto, &mut self.compressed, COMPRESSION_LEVEL);
        proof {
            if outcome is Ok {
                assert(self.compressed@ =~= zstd_frame(message, COMPRESSION_LEVEL));
            }
        }
        finish_payload(outcome, &self.compressed)
    }

    /// Merges the graphs in the order given and encodes the aggregate, as
    /// [`SubgraphSerializer::encode`] does.
    pub fn serialize_completed_events(&mut self, completed_events: &[Graph]) -> (r: Result<
        Vec<Vec<u8>>,
        SubgraphSerializerError,
    >)
        ensures
            encoding_outcome(
                r,
                merges_to_nothing(completed_events@),
                batch_message(completed_events@),
                final(self).buffers() == old(self).buffers(),
            ),
    {
        let merged = merge_batch(completed_events);
        self.encode(&merged.graph)
    }
}

} // verus!

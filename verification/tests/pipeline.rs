use grapl_pipeline::batch::{fragments_of, merge_batch};
use grapl_pipeline::event::{build_node, BuildError, Node, NodeKey, ProcessState, ProcessStop};
use grapl_pipeline::graph::{Edge, Graph};
use grapl_pipeline::serializer::{finish_payload, read_payload};
use grapl_pipeline::serializer::{SubgraphSerializer, SubgraphSerializerError};

fn stop(process_id: u64, name: &str, hostname: &str, timestamp: u64) -> ProcessStop {
    ProcessStop { process_id, name: name.to_string(), hostname: hostname.to_string(), timestamp }
}

fn node(process_id: u64, name: &str, hostname: &str, state: ProcessState, timestamp: u64) -> Node {
    Node {
        key: NodeKey { process_id, hostname: hostname.to_string() },
        process_name: name.to_string(),
        state,
        timestamp,
    }
}

fn edge(from: u64, to: u64, name: &str) -> Edge {
    Edge {
        from: NodeKey { process_id: from, hostname: "host-1".to_string() },
        to: NodeKey { process_id: to, hostname: "host-1".to_string() },
        edge_name: name.to_string(),
    }
}

fn keys(graph: &Graph) -> Vec<(u64, String)> {
    let mut keys: Vec<(u64, String)> =
        graph.nodes.iter().map(|n| (n.key.process_id, n.key.hostname.clone())).collect();
    keys.sort();
    keys
}

fn edge_names(graph: &Graph) -> Vec<String> {
    let mut names: Vec<String> = graph.edges.iter().map(|e| e.edge_name.clone()).collect();
    names.sort();
    names
}

#[test]
fn build_node_marks_the_process_terminated() {
    let built = build_node(stop(42, "evil.exe", "host-1", 1000)).unwrap();
    assert_eq!(built.state, ProcessState::Terminated);
    assert_eq!(built.terminated_timestamp(), Some(1000));
    assert_eq!(built.timestamp, 1000);
    assert_eq!(built.key.process_id, 42);
    assert_eq!(built.key.hostname, "host-1");
    assert_eq!(built.process_name, "evil.exe");
}

#[test]
fn terminated_timestamp_is_absent_for_other_states() {
    assert_eq!(node(1, "a", "h", ProcessState::Created, 5).terminated_timestamp(), None);
    assert_eq!(node(1, "a", "h", ProcessState::Existing, 5).terminated_timestamp(), None);
    assert_eq!(node(1, "a", "h", ProcessState::Terminated, 5).terminated_timestamp(), Some(5));
}

#[test]
fn build_node_rejects_an_empty_hostname() {
    let r = build_node(stop(42, "evil.exe", "", 1000));
    assert_eq!(r.err(), Some(BuildError::MissingHostname));
}

#[test]
fn build_node_rejects_an_empty_name() {
    let r = build_node(stop(42, "", "host-1", 1000));
    assert_eq!(r.err(), Some(BuildError::MissingProcessName));
}

#[test]
fn build_node_reports_the_hostname_first() {
    let r = build_node(stop(42, "", "", 1000));
    assert_eq!(r.err(), Some(BuildError::MissingHostname));
}

#[test]
fn build_error_messages_name_the_field() {
    assert_eq!(BuildError::MissingHostname.message(), "`hostname` must be initialized");
    assert_eq!(BuildError::MissingProcessName.message(), "`process_name` must be initialized");
}

#[test]
fn fragment_holds_one_node_and_the_event_time() {
    let fragment = Graph::try_from(stop(42, "evil.exe", "host-1", 1000)).unwrap();
    assert_eq!(fragment.nodes.len(), 1);
    assert_eq!(fragment.edges.len(), 0);
    assert_eq!(fragment.timestamp, 1000);
    assert_eq!(fragment.nodes[0].state, ProcessState::Terminated);
    assert!(!fragment.is_empty());
}

#[test]
fn fragment_of_an_incomplete_event_is_refused() {
    let r = Graph::try_from(stop(42, "evil.exe", "", 1000));
    assert_eq!(r.err(), Some(BuildError::MissingHostname));
    let r = Graph::try_from(stop(42, "", "host-1", 1000));
    assert_eq!(r.err(), Some(BuildError::MissingProcessName));
}

#[test]
fn a_refused_event_leaves_the_others_alone() {
    let events = vec![
        stop(1, "a.exe", "host-1", 10),
        stop(2, "b.exe", "", 20),
        stop(3, "c.exe", "host-1", 30),
    ];
    let results: Vec<Result<Graph, BuildError>> =
        events.into_iter().map(Graph::try_from).collect();
    assert!(results[0].is_ok());
    assert_eq!(results[1].as_ref().err(), Some(&BuildError::MissingHostname));
    assert!(results[2].is_ok());
    assert_eq!(results[2].as_ref().unwrap().nodes[0].key.process_id, 3);
}

#[test]
fn new_graph_is_empty() {
    let g = Graph::new(7);
    assert!(g.is_empty());
    assert_eq!(g.timestamp, 7);
}

#[test]
fn graph_with_only_an_edge_is_not_empty() {
    let mut g = Graph::new(0);
    g.add_edge(edge(1, 2, "child"));
    assert!(!g.is_empty());
    assert_eq!(g.edges.len(), 1);
}

#[test]
fn add_node_replaces_a_node_of_the_same_identity() {
    let mut g = Graph::new(0);
    g.add_node(node(1, "first", "host-1", ProcessState::Created, 10));
    g.add_node(node(2, "other", "host-1", ProcessState::Created, 11));
    g.add_node(node(1, "second", "host-1", ProcessState::Terminated, 12));
    assert_eq!(g.nodes.len(), 2);
    assert_eq!(g.nodes[0].process_name, "second");
    assert_eq!(g.nodes[0].timestamp, 12);
    assert_eq!(g.nodes[1].process_name, "other");
}

#[test]
fn same_process_id_on_another_host_is_another_node() {
    let mut g = Graph::new(0);
    g.add_node(node(1, "a", "host-1", ProcessState::Created, 10));
    g.add_node(node(1, "a", "host-2", ProcessState::Created, 10));
    assert_eq!(g.nodes.len(), 2);
}

#[test]
fn merge_unions_nodes_and_appends_edges() {
    let mut a = Graph::new(5);
    a.add_node(node(1, "a", "host-1", ProcessState::Created, 10));
    a.add_edge(edge(1, 2, "x"));
    let mut b = Graph::new(9);
    b.add_node(node(2, "b", "host-1", ProcessState::Created, 11));
    b.add_node(node(1, "a2", "host-1", ProcessState::Terminated, 12));
    b.add_edge(edge(2, 1, "y"));
    a.merge(&b);
    assert_eq!(a.timestamp, 5);
    assert_eq!(a.nodes.len(), 2);
    assert_eq!(a.nodes[0].process_name, "a2");
    assert_eq!(a.nodes[1].process_name, "b");
    assert_eq!(a.edges.len(), 2);
    assert_eq!(a.edges[0].edge_name, "x");
    assert_eq!(a.edges[1].edge_name, "y");
}

#[test]
fn same_identity_merges_into_one_node_in_either_order() {
    let first = Graph::try_from(stop(42, "evil.exe", "host-1", 1000)).unwrap();
    let second = Graph::try_from(stop(42, "evil.exe", "host-1", 1000)).unwrap();
    let forward = merge_batch(&[first.clone(), second.clone()]);
    let backward = merge_batch(&[second, first]);
    assert_eq!(forward.graph.nodes.len(), 1);
    assert_eq!(backward.graph.nodes.len(), 1);
    assert_eq!(forward.pre_nodes, 2);
    assert_eq!(backward.pre_nodes, 2);
    assert_eq!(keys(&forward.graph), vec![(42, "host-1".to_string())]);
}

#[test]
fn merge_does_not_depend_on_the_order_of_fragments() {
    let mut a = Graph::new(1);
    a.add_node(node(1, "a", "host-1", ProcessState::Created, 10));
    a.add_edge(edge(1, 2, "x"));
    let mut b = Graph::new(2);
    b.add_node(node(2, "b", "host-1", ProcessState::Created, 11));
    b.add_node(node(1, "a", "host-1", ProcessState::Created, 10));
    let mut c = Graph::new(3);
    c.add_node(node(3, "c", "host-2", ProcessState::Terminated, 12));
    c.add_edge(edge(3, 1, "y"));
    let one = merge_batch(&[a.clone(), b.clone(), c.clone()]);
    let other = merge_batch(&[c, a, b]);
    assert_eq!(keys(&one.graph), keys(&other.graph));
    assert_eq!(keys(&one.graph).len(), 3);
    assert_eq!(edge_names(&one.graph), edge_names(&other.graph));
    assert_eq!(one.pre_nodes, 4);
    assert_eq!(other.pre_nodes, 4);
    assert_eq!(one.pre_edges, 2);
    assert_eq!(other.pre_edges, 2);
    assert_eq!(one.graph.timestamp, 0);
}

#[test]
fn one_event_gives_one_payload() {
    let built = build_node(stop(42, "evil.exe", "host-1", 1000)).unwrap();
    assert_eq!(built.state, ProcessState::Terminated);
    assert_eq!(built.terminated_timestamp(), Some(1000));
    let fragment = Graph::try_from(stop(42, "evil.exe", "host-1", 1000)).unwrap();
    assert_eq!(fragment.nodes.len(), 1);
    let merged = merge_batch(&[fragment.clone()]);
    assert_eq!(merged.graph.nodes.len(), 1);
    assert_eq!(merged.graph.edges.len(), 0);
    assert_eq!(merged.pre_nodes, 1);
    assert_eq!(merged.pre_edges, 0);
    let mut serializer = SubgraphSerializer::default();
    let payloads = serializer.serialize_completed_events(&[fragment]).unwrap();
    assert_eq!(payloads.len(), 1);
    assert!(!payloads[0].is_empty());
}

#[test]
fn no_event_gives_no_payload() {
    let merged = merge_batch(&[]);
    assert_eq!(merged.graph.nodes.len(), 0);
    assert_eq!(merged.graph.edges.len(), 0);
    assert_eq!(merged.pre_nodes, 0);
    assert!(merged.graph.is_empty());
    let mut serializer = SubgraphSerializer::new(vec![1, 2, 3], vec![4, 5]);
    let payloads = serializer.serialize_completed_events(&[]).unwrap();
    assert!(payloads.is_empty());
}

#[test]
fn empty_fragments_give_no_payload() {
    let mut serializer = SubgraphSerializer::default();
    let fragments = vec![Graph::new(1), Graph::new(2), Graph::new(3)];
    let payloads = serializer.serialize_completed_events(&fragments).unwrap();
    assert!(payloads.is_empty());
}

#[test]
fn payload_decompresses_to_the_message() {
    let fragment = Graph::try_from(stop(42, "evil.exe", "host-1", 1000)).unwrap();
    let mut serializer = SubgraphSerializer::default();
    let payloads = serializer.serialize_completed_events(&[fragment]).unwrap();
    let message = zstd::stream::decode_all(payloads[0].as_slice()).unwrap();
    let mut expected: Vec<u8> = vec![0x0a, 31, 0x0a, 29];
    expected.extend_from_slice(&[0x0a, 10, 0x08, 42, 0x12, 6]);
    expected.extend_from_slice(b"host-1");
    expected.extend_from_slice(&[0x12, 15, 0x0a, 8]);
    expected.extend_from_slice(b"evil.exe");
    expected.extend_from_slice(&[0x10, 1, 0x18, 0xe8, 0x07]);
    assert_eq!(message, expected);
}

#[test]
fn payload_is_a_frame_of_level_four() {
    let mut fragment = Graph::new(0);
    for i in 0..50u64 {
        fragment.add_node(node(i, "svchost.exe", "host-1", ProcessState::Terminated, 1000 + i));
    }
    let mut serializer = SubgraphSerializer::default();
    let payloads = serializer.serialize_completed_events(&[fragment.clone()]).unwrap();
    let message = zstd::stream::decode_all(payloads[0].as_slice()).unwrap();
    let again = zstd::stream::encode_all(message.as_slice(), 4).unwrap();
    assert_eq!(payloads[0], again);
    assert!(payloads[0].len() < message.len());
}

#[test]
fn serializer_gives_the_same_payload_on_every_call() {
    let fragment = Graph::try_from(stop(42, "evil.exe", "host-1", 1000)).unwrap();
    let mut serializer = SubgraphSerializer::new(vec![9; 100], vec![7; 100]);
    let first = serializer.serialize_completed_events(&[fragment.clone()]).unwrap();
    let second = serializer.serialize_completed_events(&[fragment.clone()]).unwrap();
    let fresh = SubgraphSerializer::default().serialize_completed_events(&[fragment]).unwrap();
    assert_eq!(first, second);
    assert_eq!(first, fresh);
}

#[test]
fn finish_payload_hands_out_the_compressed_bytes() {
    let r = finish_payload(Ok(()), &vec![1, 2, 3]).unwrap();
    assert_eq!(r, vec![vec![1u8, 2, 3]]);
}

#[test]
fn finish_payload_passes_the_compressor_error_on() {
    let failure = std::io::Error::new(std::io::ErrorKind::Other, "stream failed");
    let r = finish_payload(Err(failure), &vec![1, 2, 3]);
    match r {
        Err(SubgraphSerializerError::Io(e)) => assert_eq!(e.kind(), std::io::ErrorKind::Other),
        _ => panic!("expected an IO error"),
    }
}

#[test]
fn serializer_error_messages() {
    let io = SubgraphSerializerError::Io(std::io::Error::new(std::io::ErrorKind::Other, "x"));
    assert_eq!(io.message(), "IO");
    let encode = SubgraphSerializerError::EncodeError { required: 10, remaining: 5 };
    assert_eq!(encode.message(), "EncodeError");
}

#[test]
fn read_payload_undoes_the_compression() {
    let fragment = Graph::try_from(stop(42, "evil.exe", "host-1", 1000)).unwrap();
    let merged = merge_batch(&[fragment.clone()]);
    let mut expected: Vec<u8> = Vec::new();
    grapl_pipeline::wire::encode_subgraphs(&merged.graph, &mut expected);
    let mut serializer = SubgraphSerializer::default();
    let payloads = serializer.serialize_completed_events(&[fragment]).unwrap();
    assert_ne!(payloads[0], expected);
    assert_eq!(read_payload(payloads[0].as_slice()).unwrap(), expected);
}

#[test]
fn read_payload_refuses_what_is_no_frame() {
    match read_payload(&[1, 2, 3, 4, 5]) {
        Err(SubgraphSerializerError::Io(_)) => {}
        _ => panic!("expected an IO error"),
    }
}

#[test]
fn to_fragment_wraps_one_node() {
    let fragment = Graph::to_fragment(node(7, "a.exe", "host-9", ProcessState::Existing, 3), 99);
    assert_eq!(fragment.nodes.len(), 1);
    assert_eq!(fragment.nodes[0].key.process_id, 7);
    assert_eq!(fragment.nodes[0].key.hostname, "host-9");
    assert_eq!(fragment.nodes[0].state, ProcessState::Existing);
    assert_eq!(fragment.edges.len(), 0);
    assert_eq!(fragment.timestamp, 99);
}

#[test]
fn fragments_of_a_batch_come_in_order() {
    let events = vec![stop(1, "a.exe", "host-1", 10), stop(2, "b.exe", "host-2", 20)];
    let fragments = fragments_of(&events).unwrap();
    assert_eq!(fragments.len(), 2);
    assert_eq!(fragments[0].nodes[0].key.process_id, 1);
    assert_eq!(fragments[0].timestamp, 10);
    assert_eq!(fragments[1].nodes[0].key.process_id, 2);
    assert_eq!(fragments[1].nodes[0].process_name, "b.exe");
    assert_eq!(fragments[1].timestamp, 20);
    assert_eq!(fragments_of(&[]).unwrap().len(), 0);
}

#[test]
fn one_incomplete_event_fails_the_batch() {
    let events = vec![
        stop(1, "a.exe", "host-1", 10),
        stop(2, "", "host-1", 20),
        stop(3, "c.exe", "", 30),
    ];
    assert_eq!(fragments_of(&events).err(), Some(BuildError::MissingProcessName));
}

#[test]
fn encode_keeps_the_timestamp_of_the_graph() {
    let fragment = Graph::try_from(stop(42, "evil.exe", "host-1", 1000)).unwrap();
    let mut expected: Vec<u8> = Vec::new();
    grapl_pipeline::wire::encode_subgraphs(&fragment, &mut expected);
    assert_eq!(&expected[expected.len() - 3..], &[0x18, 0xe8, 0x07]);
    let mut serializer = SubgraphSerializer::default();
    let payloads = serializer.encode(&fragment).unwrap();
    assert_eq!(payloads.len(), 1);
    assert_eq!(read_payload(payloads[0].as_slice()).unwrap(), expected);
}

#[test]
fn encode_of_an_empty_graph_gives_nothing() {
    let mut serializer = SubgraphSerializer::default();
    assert!(serializer.encode(&Graph::new(12)).unwrap().is_empty());
}

#[test]
fn graph_with_only_an_edge_is_encoded() {
    let mut g = Graph::new(0);
    g.add_edge(edge(1, 2, "child"));
    let mut serializer = SubgraphSerializer::default();
    let payloads = serializer.serialize_completed_events(&[g]).unwrap();
    assert_eq!(payloads.len(), 1);
    let message = read_payload(payloads[0].as_slice()).unwrap();
    assert_eq!(message[0], 0x0a);
    assert_eq!(message[2], 0x12);
}

#[test]
fn merge_groups_in_any_way() {
    let mut a = Graph::new(0);
    a.add_node(node(1, "a", "host-1", ProcessState::Created, 1));
    let mut b = Graph::new(0);
    b.add_node(node(2, "b", "host-1", ProcessState::Created, 2));
    b.add_node(node(1, "a", "host-1", ProcessState::Terminated, 3));
    let mut c = Graph::new(0);
    c.add_node(node(3, "c", "host-1", ProcessState::Created, 4));
    c.add_edge(edge(3, 1, "z"));

    let mut left = a.clone();
    left.merge(&b);
    left.merge(&c);

    let mut inner = b.clone();
    inner.merge(&c);
    let mut right = a.clone();
    right.merge(&inner);

    assert_eq!(keys(&left), keys(&right));
    assert_eq!(edge_names(&left), edge_names(&right));
    let winner = left.nodes.iter().find(|n| n.key.process_id == 1).unwrap();
    assert_eq!(winner.state, ProcessState::Terminated);
    assert_eq!(winner.timestamp, 3);
}

#[test]
fn duplicates_are_equal_to_their_source() {
    let n = node(5, "p.exe", "host-5", ProcessState::Existing, 77);
    let copy = n.duplicate();
    assert_eq!(copy.key.process_id, 5);
    assert_eq!(copy.key.hostname, "host-5");
    assert!(copy.key.same_as(&n.key));
    assert!(!copy.key.same_as(&NodeKey { process_id: 5, hostname: "host-6".to_string() }));
    assert!(!copy.key.same_as(&NodeKey { process_id: 6, hostname: "host-5".to_string() }));
    assert_eq!(copy.process_name, "p.exe");
    assert_eq!(copy.timestamp, 77);
    let e = edge(1, 2, "child").duplicate();
    assert_eq!(e.from.process_id, 1);
    assert_eq!(e.to.process_id, 2);
    assert_eq!(e.edge_name, "child");
    let event = stop(42, "evil.exe", "host-1", 1000).duplicate();
    assert_eq!(event.process_id, 42);
    assert_eq!(event.name, "evil.exe");
    assert_eq!(event.hostname, "host-1");
    assert_eq!(event.timestamp, 1000);
}

//! Raw process events and the nodes built from them.

use vstd::prelude::*;

verus! {

/// A record of a process that has stopped, as delivered by the event feed.
#[derive(Clone, Debug, Hash)]
pub struct ProcessStop {
    pub process_id: u64,
    pub name: String,
    pub hostname: String,
    pub timestamp: u64,
}

impl ProcessStop {
    /// An independent copy of this event.
    pub fn duplicate(&self) -> (r: ProcessStop)
        ensures
            r == *self,
    {
        ProcessStop {
            process_id: self.process_id,
            name: self.name.clone(),
            hostname: self.hostname.clone(),
            timestamp: self.timestamp,
        }
    }
}

/// The lifecycle state a process node is tagged with.
#[derive(Clone, Copy, Debug, PartialEq, Eq, Structural)]
pub enum ProcessState {
    Created,
    Terminated,
    Existing,
}

/// The attributes that make two nodes the same logical process.
#[derive(Clone, Debug)]
pub struct NodeKey {
    pub process_id: u64,
    pub hostname: String,
}

/// The mathematical value of a [`NodeKey`].
pub ghost struct Identity {
    pub process_id: u64,
    pub hostname: Seq<char>,
}

impl View for NodeKey {
    type V = Identity;

    open spec fn view(&self) -> Identity {
        Identity { process_id: self.process_id, hostname: self.hostname@ }
    }
}

impl NodeKey {
    /// Whether both keys name the same logical process.
    pub fn same_as(&self, other: &NodeKey) -> (r: bool)
        ensures
            r == (self@ == other@),
    {
        self.process_id == other.process_id && self.hostname == other.hostname
    }

    /// An independent copy of this key.
    pub fn duplicate(&self) -> (r: NodeKey)
        ensures
            r == *self,
    {
        NodeKey { process_id: self.process_id, hostname: self.hostname.clone() }
    }
}

/// A process vertex of the graph.
#[derive(Clone, Debug)]
pub struct Node {
    pub key: NodeKey,
    pub process_name: String,
    pub state: ProcessState,
    /// The time of the event that put the process into `state`.
    pub timestamp: u64,
}

/// The mathematical value of a [`Node`].
pub ghost struct NodeView {
    pub key: Identity,
    pub process_name: Seq<char>,
    pub state: ProcessState,
    pub timestamp: u64,
}

impl View for Node {
    type V = NodeView;

    open spec fn view(&self) -> NodeView {
        NodeView {
            key: self.key@,
            process_name: self.process_name@,
            state: self.state,
            timestamp: self.timestamp,
        }
    }
}

impl Node {
    /// An independent copy of this node.
    pub fn duplicate(&self) -> (r: Node)
        ensures
            r == *self,
    {
        Node {
            key: self.key.duplicate(),
            process_name: self.process_name.clone(),
            state: self.state,
            timestamp: self.timestamp,
        }
    }

    /// The time at which the process terminated, for a terminated process.
    pub fn terminated_timestamp(&self) -> (r: Option<u64>)
        ensures
            r == (if self.state == ProcessState::Terminated {
                Some(self.timestamp)
            } else {
                None
            }),
    {
        match self.state {
            ProcessState::Terminated => Some(self.timestamp),
            _ => None,
        }
    }
}

/// Why an event could not be turned into a node.
#[derive(Clone, Copy, Debug, PartialEq, Eq, Structural)]
pub enum BuildError {
    /// The event names no host.
    MissingHostname,
    /// The event names no process.
    MissingProcessName,
}

impl BuildError {
    /// A description of the error for people.
    pub fn message(&self) -> (r: String)
        ensures
            r@ == (match *self {
                BuildError::MissingHostname => "`hostname` must be initialized"@,
                BuildError::MissingProcessName => "`process_name` must be initialized"@,
            }),
    {
        match self {
            BuildError::MissingHostname => "`hostname` must be initialized".to_owned(),
            BuildError::MissingProcessName => "`process_name` must be initialized".to_owned(),
        }
    }
}

/// Whether the event carries every field a node needs.
pub open spec fn complete(event: ProcessStop) -> bool {
    event.hostname@.len() > 0 && event.name@.len() > 0
}

/// The node that a complete stop event describes.
pub open spec fn terminated_node(event: ProcessStop) -> Node {
    Node {
        key: NodeKey { process_id: event.process_id, hostname: event.hostname },
        process_name: event.name,
        state: ProcessState::Terminated,
        timestamp: event.timestamp,
    }
}

/// The error that an incomplete stop event is rejected with.
pub open spec fn build_error(event: ProcessStop) -> BuildError {
    if event.hostname@.len() == 0 {
        BuildError::MissingHostname
    } else {
        BuildError::MissingProcessName
    }
}

/// Builds the terminated-process node of a stop event, or rejects the event
/// when its hostname or its process name is empty.
pub fn build_node(event: ProcessStop) -> (r: Result<Node, BuildError>)
    ensures
        complete(event) ==> r == Ok::<Node, BuildError>(terminated_node(event)),
        !complete(event) ==> r == Err::<Node, BuildError>(build_error(event)),
{
    if event.hostname.as_str().is_empty() {
        return Err(BuildError::MissingHostname);
    }
    if event.name.as_str().is_empty() {
        return Err(BuildError::MissingProcessName);
    }
    Ok(
        Node {
            key: NodeKey { process_id: event.process_id, hostname: event.hostname },
            process_name: event.name,
            state: ProcessState::Terminated,
            timestamp: event.timestamp,
        },
    )
}

} // verus!

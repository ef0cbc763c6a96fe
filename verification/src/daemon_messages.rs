//! Messages between a daemon and its nodes, and between the coordinator and
//! its daemons.

use vstd::prelude::*;
use crate::config::{DataId, NodeId, NodeRunConfig, OperatorId};
use crate::descriptor::{OperatorDefinition, ResolvedNode};
use crate::topics::{GracePeriod, SocketAddress};
use crate::trusted::{
    decimal, decimal_text, digit, hyphenated, is_random_uuid, push_str, random_uuid, uuid_text,
};

verus! {

/// Identifies one running dataflow on the wire between coordinator, daemon
/// and node.
pub type DataflowId = u128;

/// Handle of one shared-memory region. The ledger mints it; its number is
/// never given out twice.
#[derive(Debug, Clone, Copy, PartialEq, Eq, PartialOrd, Ord, Hash, Structural)]
pub struct SharedMemoryId(pub u64);

/// The number that a digit stands for.
pub open spec fn digit_value(c: char) -> Option<nat> {
    if c == '0' {
        Some(0)
    } else if c == '1' {
        Some(1)
    } else if c == '2' {
        Some(2)
    } else if c == '3' {
        Some(3)
    } else if c == '4' {
        Some(4)
    } else if c == '5' {
        Some(5)
    } else if c == '6' {
        Some(6)
    } else if c == '7' {
        Some(7)
    } else if c == '8' {
        Some(8)
    } else if c == '9' {
        Some(9)
    } else {
        None
    }
}

/// The number that a text of digits, and of nothing else, stands for.
pub open spec fn number_of(text: Seq<char>) -> Option<nat>
    decreases text.len(),
{
    if text.len() == 0 {
        None
    } else if text.len() == 1 {
        digit_value(text[0])
    } else {
        match (number_of(text.drop_last()), digit_value(text.last())) {
            (Some(n), Some(d)) => Some(10 * n + d),
            _ => None,
        }
    }
}

/// A number is read back from the text that it is written as.
pub proof fn lemma_number_of_decimal(n: nat)
    ensures
        number_of(decimal(n)) == Some(n),
        decimal(n).len() >= 1,
    decreases n,
{
    if n < 10 {
        assert(decimal(n)[0] == digit(n as int));
    } else {
        lemma_number_of_decimal(n / 10);
        let text = decimal(n);
        assert(text.drop_last() =~= decimal(n / 10));
        assert(text.last() == digit((n % 10) as int));
        assert(digit_value(digit((n % 10) as int)) == Some(n % 10));
    }
}

/// The number that the character stands for, if it is a digit.
fn digit_of(c: char) -> (d: Option<u64>)
    ensures
        match d {
            Some(d) => digit_value(c) == Some(d as nat) && d < 10,
            None => digit_value(c) is None,
        },
{
    if c == '0' {
        Some(0)
    } else if c == '1' {
        Some(1)
    } else if c == '2' {
        Some(2)
    } else if c == '3' {
        Some(3)
    } else if c == '4' {
        Some(4)
    } else if c == '5' {
        Some(5)
    } else if c == '6' {
        Some(6)
    } else if c == '7' {
        Some(7)
    } else if c == '8' {
        Some(8)
    } else if c == '9' {
        Some(9)
    } else {
        None
    }
}

impl SharedMemoryId {
    /// The handle that a text names: the number that its digits stand for,
    /// if it is all digits and the number is one that a handle can be.
    pub open spec fn named_by(text: Seq<char>) -> Option<SharedMemoryId> {
        match number_of(text) {
            Some(n) => if n <= u64::MAX {
                Some(SharedMemoryId(n as u64))
            } else {
                None
            },
            None => None,
        }
    }

    /// The handle as nodes are told of it: its number in base ten.
    pub fn to_text(&self) -> (text: String)
        ensures
            text@ == decimal(self.0 as nat),
            SharedMemoryId::named_by(text@) == Some(*self),
    {
        proof {
            lemma_number_of_decimal(self.0 as nat);
        }
        decimal_text(self.0)
    }

    /// Reads a handle from the text that a node names it by.
    pub fn from_text(text: &str) -> (id: Option<SharedMemoryId>)
        ensures
            id == SharedMemoryId::named_by(text@),
    {
        let len = text.unicode_len();
        if len == 0 {
            return None;
        }
        let mut value: u64 = 0;
        let mut i: usize = 0;
        while i < len
            invariant
                i <= len,
                len == text@.len(),
                i > 0 ==> number_of(text@.subrange(0, i as int)) == Some(value as nat),
                i == 0 ==> value == 0,
            decreases len - i,
        {
            let ghost seen = text@.subrange(0, i as int);
            let ghost next = text@.subrange(0, i + 1);
            proof {
                assert(next.drop_last() =~= seen);
                assert(next.last() == text@[i as int]);
                if i == 0 {
                    assert(next.len() == 1);
                    assert(next[0] == text@[0]);
                }
            }
            let d = match digit_of(text.get_char(i)) {
                Some(d) => d,
                None => {
                    proof {
                        lemma_number_of_grows(text@, i + 1);
                    }
                    return None;
                },
            };
            if value > (u64::MAX - d) / 10 {
                proof {
                    assert(10 * value + d > u64::MAX);
                    lemma_number_of_bound(text@, i + 1);
                }
                return None;
            }
            value = 10 * value + d;
            i += 1;
        }
        assert(text@.subrange(0, len as int) =~= text@);
        Some(SharedMemoryId(value))
    }
}

/// A text with a prefix that no number is read from stands for none.
pub proof fn lemma_number_of_grows(text: Seq<char>, upto: int)
    requires
        0 < upto <= text.len(),
        number_of(text.subrange(0, upto)) is None,
    ensures
        number_of(text) is None,
    decreases text.len() - upto,
{
    if upto == text.len() {
        assert(text.subrange(0, upto) =~= text);
    } else {
        let next = text.subrange(0, upto + 1);
        assert(next.drop_last() =~= text.subrange(0, upto));
        lemma_number_of_grows(text, upto + 1);
    }
}

/// The number that a text stands for is no smaller than the number that
/// any of its prefixes stands for.
pub proof fn lemma_number_of_bound(text: Seq<char>, upto: int)
    requires
        0 < upto <= text.len(),
    ensures
        match (number_of(text), number_of(text.subrange(0, upto))) {
            (Some(whole), Some(part)) => part <= whole,
            _ => true,
        },
    decreases text.len() - upto,
{
    if upto == text.len() {
        assert(text.subrange(0, upto) =~= text);
    } else {
        let next = text.subrange(0, upto + 1);
        assert(next.drop_last() =~= text.subrange(0, upto));
        assert(next.len() >= 2);
        lemma_number_of_bound(text, upto + 1);
        match number_of(next) {
            Some(more) => {
                assert(number_of(text.subrange(0, upto)) is Some);
                assert(more >= number_of(text.subrange(0, upto))->0);
            },
            None => {
                lemma_number_of_grows(text, upto + 1);
            },
        }
    }
}

/// Handle that follows one shared-memory payload from its sender to every
/// consumer and back.
#[derive(Debug, Clone, Copy, PartialEq, Eq, PartialOrd, Ord, Hash, Structural)]
pub struct DropToken(pub u128);

impl DropToken {
    /// Mints a token from a fresh random identifier.
    pub fn generate() -> (token: DropToken)
        ensures
            is_random_uuid(token.0),
    {
        DropToken(random_uuid())
    }
}

/// What a node is started with.
#[derive(Debug)]
pub struct NodeConfig {
    pub dataflow_id: DataflowId,
    pub node_id: NodeId,
    pub run_config: NodeRunConfig,
    pub daemon_communication: DaemonCommunication,
}

impl NodeConfig {
    /// What the node is started with: which dataflow it belongs to, what
    /// it is called, what it listens to and sends on, and how it reaches
    /// the daemon.
    pub fn for_node(
        dataflow_id: DataflowId,
        node: &ResolvedNode,
        daemon_communication: DaemonCommunication,
    ) -> (config: NodeConfig)
        ensures
            config.dataflow_id == dataflow_id,
            config.node_id == node.id,
            config.run_config.inputs@ == node.run_config.inputs@,
            config.run_config.outputs@ == node.run_config.outputs@,
            config.daemon_communication == daemon_communication,
    {
        NodeConfig {
            dataflow_id,
            node_id: node.id.duplicate(),
            run_config: node.run_config.duplicate(),
            daemon_communication,
        }
    }
}

/// How a node reaches its daemon.
#[derive(Debug, Clone)]
pub enum DaemonCommunication {
    Shmem {
        daemon_control_region_id: String,
        daemon_drop_region_id: String,
        daemon_events_region_id: String,
        daemon_events_close_region_id: String,
    },
    Tcp { socket_addr: SocketAddress },
}

/// What a runtime node is started with.
#[derive(Debug)]
pub struct RuntimeConfig {
    pub node: NodeConfig,
    pub operators: Vec<OperatorDefinition>,
}

/// Descriptive data that travels with a payload. The daemon carries it
/// through unread.
#[derive(Debug, Clone, PartialEq, Eq)]
pub struct Metadata {
    pub raw: Vec<u8>,
}

impl View for Metadata {
    type V = Seq<u8>;

    open spec fn view(&self) -> Seq<u8> {
        self.raw@
    }
}

impl Metadata {
    pub fn duplicate(&self) -> (copy: Metadata)
        ensures
            copy@ == self@,
    {
        Metadata { raw: copy_bytes(&self.raw) }
    }
}

/// A copy of the bytes.
pub fn copy_bytes(bytes: &Vec<u8>) -> (copy: Vec<u8>)
    ensures
        copy@ == bytes@,
{
    let mut copy: Vec<u8> = Vec::new();
    let mut i: usize = 0;
    while i < bytes.len()
        invariant
            i <= bytes.len(),
            copy@ == bytes@.subrange(0, i as int),
        decreases bytes.len() - i,
    {
        copy.push(bytes[i]);
        assert(bytes@.subrange(0, i + 1) =~= bytes@.subrange(0, i as int).push(bytes[i as int]));
        i += 1;
    }
    assert(bytes@.subrange(0, bytes.len() as int) =~= bytes@);
    copy
}

/// What a node asks of its daemon.
#[derive(Debug)]
pub enum DaemonRequest {
    Register { dataflow_id: DataflowId, node_id: NodeId, dora_version: String },
    Subscribe,
    SendMessage { output_id: DataId, metadata: Metadata, data: Option<Data> },
    CloseOutputs(Vec<DataId>),
    /// The node has finished sending outputs and has received every drop
    /// token that it waited for.
    OutputsDone,
    NextEvent { drop_tokens: Vec<DropToken> },
    ReportDropTokens { drop_tokens: Vec<DropToken> },
    SubscribeDrop,
    NextFinishedDropTokens,
    EventStreamDropped,
}

impl DaemonRequest {
    /// Whether the request is answered on the connection it came on.
    /// `SendMessage` and `ReportDropTokens` are not: they are sent and
    /// forgotten.
    pub fn expects_tcp_reply(&self) -> (answered: bool)
        ensures
            answered == !(self is SendMessage || self is ReportDropTokens),
    {
        match self {
            DaemonRequest::SendMessage { .. } | DaemonRequest::ReportDropTokens { .. } => false,
            DaemonRequest::Register { .. }
            | DaemonRequest::Subscribe
            | DaemonRequest::CloseOutputs(_)
            | DaemonRequest::OutputsDone
            | DaemonRequest::NextEvent { .. }
            | DaemonRequest::SubscribeDrop
            | DaemonRequest::NextFinishedDropTokens
            | DaemonRequest::EventStreamDropped => true,
        }
    }
}

/// The payload of a message: its bytes, or the shared-memory region that
/// holds them.
#[derive(Debug, Clone, PartialEq, Eq)]
pub enum Data {
    Vec(Vec<u8>),
    SharedMemory { shared_memory_id: SharedMemoryId, len: usize, drop_token: DropToken },
}

/// A payload as a mathematical value.
pub enum DataView {
    Vec(Seq<u8>),
    SharedMemory { shared_memory_id: SharedMemoryId, len: usize, drop_token: DropToken },
}

impl View for Data {
    type V = DataView;

    open spec fn view(&self) -> DataView {
        match *self {
            Data::Vec(bytes) => DataView::Vec(bytes@),
            Data::SharedMemory { shared_memory_id, len, drop_token } => DataView::SharedMemory {
                shared_memory_id,
                len,
                drop_token,
            },
        }
    }
}

impl DataView {
    pub open spec fn drop_token(self) -> Option<DropToken> {
        match self {
            DataView::Vec(_) => None,
            DataView::SharedMemory { drop_token, .. } => Some(drop_token),
        }
    }
}

impl DataView {
    /// The payload as it is shown in a log: inlined bytes by their number
    /// alone, a shared-memory payload by its handle, length and token.
    pub open spec fn debug_text(self) -> Seq<char> {
        match self {
            DataView::Vec(bytes) => "Vec { len: "@ + decimal(bytes.len()) + ", .. }"@,
            DataView::SharedMemory { shared_memory_id, len, drop_token } => {
                "SharedMemory { shared_memory_id: \""@ + decimal(shared_memory_id.0 as nat)
                    + "\", len: "@ + decimal(len as nat) + ", drop_token: DropToken("@
                    + hyphenated(drop_token.0) + ") }"@
            },
        }
    }
}

impl Data {
    /// The payload as it is shown in a log. The bytes of an inlined
    /// payload are not shown, only how many they are.
    pub fn debug_text(&self) -> (text: String)
        ensures
            text@ == self@.debug_text(),
    {
        let mut text = String::new();
        match self {
            Data::Vec(bytes) => {
                push_str(&mut text, "Vec { len: ");
                let len = decimal_text(bytes.len() as u64);
                push_str(&mut text, len.as_str());
                push_str(&mut text, ", .. }");
            },
            Data::SharedMemory { shared_memory_id, len, drop_token } => {
                push_str(&mut text, "SharedMemory { shared_memory_id: \"");
                let id = shared_memory_id.to_text();
                push_str(&mut text, id.as_str());
                push_str(&mut text, "\", len: ");
                let len = decimal_text(*len as u64);
                push_str(&mut text, len.as_str());
                push_str(&mut text, ", drop_token: DropToken(");
                let token = uuid_text(drop_token.0);
                push_str(&mut text, token.as_str());
                push_str(&mut text, ") }");
            },
        }
        assert(text@ =~= self@.debug_text());
        text
    }

    /// The token of a shared-memory payload; inlined bytes have none.
    pub fn drop_token(&self) -> (token: Option<DropToken>)
        ensures
            token == self@.drop_token(),
    {
        match self {
            Data::Vec(_) => None,
            Data::SharedMemory { drop_token, .. } => Some(*drop_token),
        }
    }

    pub fn duplicate(&self) -> (copy: Data)
        ensures
            copy@ == self@,
    {
        match self {
            Data::Vec(bytes) => Data::Vec(copy_bytes(bytes)),
            Data::SharedMemory { shared_memory_id, len, drop_token } => Data::SharedMemory {
                shared_memory_id: *shared_memory_id,
                len: *len,
                drop_token: *drop_token,
            },
        }
    }
}

/// The view of a payload that may be absent.
pub open spec fn payload_view(data: Option<Data>) -> Option<DataView> {
    match data {
        Some(data) => Some(data@),
        None => None,
    }
}

/// The token that a payload travels under, if any.
pub open spec fn payload_token(data: Option<DataView>) -> Option<DropToken> {
    match data {
        Some(data) => data.drop_token(),
        None => None,
    }
}

/// What a daemon answers a node.
#[derive(Debug, PartialEq, Eq)]
pub enum DaemonReply {
    Result(Result<(), String>),
    PreparedMessage { shared_memory_id: SharedMemoryId },
    NextEvents(Vec<NodeEvent>),
    NextDropEvents(Vec<NodeDropEvent>),
    Empty,
}

/// What a daemon tells a node in answer to `NextEvent`.
#[derive(Debug, Clone, PartialEq, Eq)]
pub enum NodeEvent {
    Stop,
    Reload { operator_id: Option<OperatorId> },
    Input { id: DataId, metadata: Metadata, data: Option<Data> },
    InputClosed { id: DataId },
    AllInputsClosed,
}

/// A node event as a mathematical value.
pub enum NodeEventView {
    Stop,
    Reload { operator_id: Option<Seq<char>> },
    Input { id: Seq<char>, metadata: Seq<u8>, data: Option<DataView> },
    InputClosed { id: Seq<char> },
    AllInputsClosed,
}

impl View for NodeEvent {
    type V = NodeEventView;

    open spec fn view(&self) -> NodeEventView {
        match *self {
            NodeEvent::Stop => NodeEventView::Stop,
            NodeEvent::Reload { operator_id } => NodeEventView::Reload {
                operator_id: match operator_id {
                    Some(id) => Some(id@),
                    None => None,
                },
            },
            NodeEvent::Input { id, metadata, data } => NodeEventView::Input {
                id: id@,
                metadata: metadata@,
                data: payload_view(data),
            },
            NodeEvent::InputClosed { id } => NodeEventView::InputClosed { id: id@ },
            NodeEvent::AllInputsClosed => NodeEventView::AllInputsClosed,
        }
    }
}

impl NodeEventView {
    /// The token that the event hands to its receiver, if any.
    pub open spec fn drop_token(self) -> Option<DropToken> {
        match self {
            NodeEventView::Input { data, .. } => payload_token(data),
            _ => None,
        }
    }
}

impl NodeEvent {
    pub fn duplicate(&self) -> (copy: NodeEvent)
        ensures
            copy@ == self@,
    {
        match self {
            NodeEvent::Stop => NodeEvent::Stop,
            NodeEvent::Reload { operator_id } => NodeEvent::Reload {
                operator_id: match operator_id {
                    Some(id) => Some(id.duplicate()),
                    None => None,
                },
            },
            NodeEvent::Input { id, metadata, data } => NodeEvent::Input {
                id: id.duplicate(),
                metadata: metadata.duplicate(),
                data: match data {
                    Some(data) => Some(data.duplicate()),
                    None => None,
                },
            },
            NodeEvent::InputClosed { id } => NodeEvent::InputClosed { id: id.duplicate() },
            NodeEvent::AllInputsClosed => NodeEvent::AllInputsClosed,
        }
    }
}

/// The views of a run of events, in order.
pub open spec fn events_view(events: Seq<NodeEvent>) -> Seq<NodeEventView> {
    events.map_values(|event: NodeEvent| event@)
}

/// What a daemon tells the sender of a shared-memory payload.
#[derive(Debug, Clone, Copy, PartialEq, Eq, Structural)]
pub enum NodeDropEvent {
    OutputDropped { drop_token: DropToken },
}

#[derive(Debug)]
pub struct DropEvent {
    pub tokens: Vec<DropToken>,
}

/// A payload as a node receives it.
#[derive(Debug)]
pub enum InputData {
    SharedMemory(SharedMemoryInput),
    Vec(Vec<u8>),
}

impl InputData {
    /// The token of a shared-memory payload; inlined bytes have none.
    pub fn drop_token(&self) -> (token: Option<DropToken>)
        ensures
            token == match *self {
                InputData::SharedMemory(input) => Some(input.drop_token),
                InputData::Vec(_) => None,
            },
    {
        match self {
            InputData::SharedMemory(data) => Some(data.drop_token),
            InputData::Vec(_) => None,
        }
    }
}

#[derive(Debug)]
pub struct SharedMemoryInput {
    pub shared_memory_id: SharedMemoryId,
    pub len: usize,
    pub drop_token: DropToken,
}

/// What the coordinator tells a daemon.
#[derive(Debug)]
pub enum DaemonCoordinatorEvent {
    Spawn(SpawnDataflowNodes),
    StopDataflow { dataflow_id: DataflowId, grace_period: Option<GracePeriod> },
    ReloadDataflow { dataflow_id: DataflowId, node_id: NodeId, operator_id: Option<OperatorId> },
    Destroy,
    Watchdog,
    Output {
        dataflow_id: DataflowId,
        node_id: NodeId,
        output_id: DataId,
        metadata: Metadata,
        data: Option<Vec<u8>>,
    },
}

/// What a daemon answers the coordinator.
#[derive(Debug, PartialEq, Eq)]
pub enum DaemonCoordinatorReply {
    SpawnResult(Result<(), String>),
    ReloadResult(Result<(), String>),
    StopResult(Result<(), String>),
    DestroyResult(Result<(), String>),
    WatchdogAck,
}

/// The nodes of one dataflow that a daemon is to run.
#[derive(Debug)]
pub struct SpawnDataflowNodes {
    pub dataflow_id: DataflowId,
    pub working_dir: String,
    pub nodes: Vec<ResolvedNode>,
    pub daemon_communication: DaemonCommunicationConfig,
}

/// The transport between a daemon and the nodes of one dataflow. Chosen
/// when the dataflow is spawned and kept for its lifetime.
#[derive(Debug, Clone, Copy, PartialEq, Eq, Structural)]
pub enum DaemonCommunicationConfig {
    Tcp,
    Shmem,
}

impl Default for DaemonCommunicationConfig {
    fn default() -> (config: Self)
        ensures
            config == DaemonCommunicationConfig::Tcp,
    {
        Self::Tcp
    }
}

} // verus!

//! One dataflow as a daemon runs it: the sessions of its nodes, the routing
//! of outputs to the inputs that listen to them, and the ledger of the
//! shared-memory regions that travel between them.

use vstd::prelude::*;
use crate::config::{
    lemma_node_set_empty, lemma_node_set_push, node_set, DataId, InputMapping, NodeId, OperatorId,
};
use crate::daemon_messages::{
    payload_token, payload_view, DaemonCommunicationConfig, Data, DataView, DataflowId, DropToken,
    Metadata, NodeDropEvent, NodeEvent, NodeEventView, SharedMemoryId,
};
use crate::descriptor::{distinct_ids, ResolvedNode};
use crate::ledger::{ForcedAck, Ledger, LedgerError, LedgerModel};
use crate::session::{
    copy_ids, drop_events, dropped, input_names, names_of, NodeSession, SessionModel, SessionState,
};

verus! {

/// Why a daemon refused a request.
#[derive(Debug, Clone, Copy, PartialEq, Eq, Structural)]
pub enum DaemonError {
    /// The request does not fit the state of the session it came on.
    ProtocolError,
    /// No dataflow with this identifier is running here.
    UnknownDataflow,
    /// The dataflow has no node of this name on this machine.
    UnknownNode,
    /// The node declares no output of this name.
    UnknownOutput,
    /// Node and daemon speak different versions of the protocol.
    VersionMismatch,
    /// Two nodes of the dataflow share a name.
    DuplicateNode,
    /// A dataflow with this identifier is running already.
    DuplicateDataflow,
    /// The ledger refused the shared-memory payload.
    Ledger(LedgerError),
}

impl DaemonError {
    /// The error in words, as a node is told of it.
    pub open spec fn text(self) -> Seq<char> {
        match self {
            DaemonError::ProtocolError => "the request does not fit the state of the session"@,
            DaemonError::UnknownDataflow => "no dataflow with this id is running"@,
            DaemonError::UnknownNode => "the dataflow has no such node on this machine"@,
            DaemonError::UnknownOutput => "the node declares no such output"@,
            DaemonError::VersionMismatch => "node and daemon speak different versions"@,
            DaemonError::DuplicateNode => "two nodes share a name"@,
            DaemonError::DuplicateDataflow => "a dataflow with this id is running already"@,
            DaemonError::Ledger(LedgerError::Exhausted) => "no shared memory region is left"@,
            DaemonError::Ledger(LedgerError::UnknownRegion) => "unknown shared memory region"@,
            DaemonError::Ledger(LedgerError::AlreadyPublished) => "the shared memory region is in use"@,
            DaemonError::Ledger(LedgerError::DuplicateToken) => "the drop token is in use"@,
        }
    }

    pub fn message(&self) -> (text: String)
        ensures
            text@ == self.text(),
    {
        match self {
            DaemonError::ProtocolError => "the request does not fit the state of the session".to_owned(),
            DaemonError::UnknownDataflow => "no dataflow with this id is running".to_owned(),
            DaemonError::UnknownNode => "the dataflow has no such node on this machine".to_owned(),
            DaemonError::UnknownOutput => "the node declares no such output".to_owned(),
            DaemonError::VersionMismatch => "node and daemon speak different versions".to_owned(),
            DaemonError::DuplicateNode => "two nodes share a name".to_owned(),
            DaemonError::DuplicateDataflow => "a dataflow with this id is running already".to_owned(),
            DaemonError::Ledger(LedgerError::Exhausted) => "no shared memory region is left".to_owned(),
            DaemonError::Ledger(LedgerError::UnknownRegion) => "unknown shared memory region".to_owned(),
            DaemonError::Ledger(LedgerError::AlreadyPublished) => "the shared memory region is in use".to_owned(),
            DaemonError::Ledger(LedgerError::DuplicateToken) => "the drop token is in use".to_owned(),
        }
    }
}

/// The nodes that are to run on the machine, in order.
pub open spec fn hosted(nodes: Seq<ResolvedNode>, machine: Seq<char>) -> Seq<ResolvedNode>
    decreases nodes.len(),
{
    if nodes.len() == 0 {
        nodes
    } else if nodes.last().machine@ == machine {
        hosted(nodes.drop_last(), machine).push(nodes.last())
    } else {
        hosted(nodes.drop_last(), machine)
    }
}

/// The nodes that are to run on another machine, in order.
pub open spec fn elsewhere(nodes: Seq<ResolvedNode>, machine: Seq<char>) -> Seq<ResolvedNode>
    decreases nodes.len(),
{
    if nodes.len() == 0 {
        nodes
    } else if nodes.last().machine@ == machine {
        elsewhere(nodes.drop_last(), machine)
    } else {
        elsewhere(nodes.drop_last(), machine).push(nodes.last())
    }
}

/// Parts the nodes of a dataflow into those that are to run on the machine
/// and the others.
pub fn split_by_machine(nodes: Vec<ResolvedNode>, machine: &String) -> (parts: (
    Vec<ResolvedNode>,
    Vec<ResolvedNode>,
))
    ensures
        parts.0@ == hosted(nodes@, machine@),
        parts.1@ == elsewhere(nodes@, machine@),
{
    let mut here: Vec<ResolvedNode> = Vec::new();
    let mut there: Vec<ResolvedNode> = Vec::new();
    let ghost all = nodes@;
    for node in it: nodes
        invariant
            it.seq() == all,
            here@ == hosted(all.subrange(0, it.index() as int), machine@),
            there@ == elsewhere(all.subrange(0, it.index() as int), machine@),
    {
        proof {
            let next = all.subrange(0, it.index() + 1);
            assert(next.drop_last() =~= all.subrange(0, it.index() as int));
            assert(next.last() == node);
        }
        if node.machine == *machine {
            here.push(node);
        } else {
            there.push(node);
        }
    }
    assert(all.subrange(0, all.len() as int) =~= all);
    (here, there)
}

/// A running dataflow as a mathematical value.
pub struct DataflowModel {
    pub id: DataflowId,
    /// The directory that the nodes are started in.
    pub working_dir: String,
    /// The transport between the daemon and the nodes, chosen when the
    /// dataflow was spawned.
    pub communication: DaemonCommunicationConfig,
    /// The nodes that run on this machine.
    pub nodes: Seq<ResolvedNode>,
    /// The nodes that run elsewhere.
    pub remote: Seq<ResolvedNode>,
    /// The session of each local node, in the order of `nodes`.
    pub sessions: Seq<SessionModel>,
    pub ledger: LedgerModel,
}

/// Some input among `nodes` listens to `output` of `source`.
pub open spec fn heard_by(nodes: Seq<ResolvedNode>, source: Seq<char>, output: Seq<char>) -> bool {
    exists|i: int, k: int|
        0 <= i < nodes.len() && 0 <= k < nodes[i].run_config.inputs.len()
            && #[trigger] nodes[i].run_config.inputs[k].listens_to(source, output)
}

impl DataflowModel {
    pub open spec fn wf(self) -> bool {
        &&& self.sessions.len() == self.nodes.len()
        &&& distinct_ids(self.nodes)
        &&& forall|i: int|
            0 <= i < self.nodes.len() ==> (#[trigger] self.sessions[i]).node_id
                == self.nodes[i].id@ && self.sessions[i].dataflow_id == self.id
        &&& self.ledger.wf()
    }

    /// Some local node has this name.
    pub open spec fn knows(self, node: Seq<char>) -> bool {
        exists|i: int| 0 <= i < self.nodes.len() && (#[trigger] self.nodes[i]).id@ == node
    }

    /// The place of the local node of this name.
    pub open spec fn index_of(self, node: Seq<char>) -> int {
        choose|i: int| 0 <= i < self.nodes.len() && (#[trigger] self.nodes[i]).id@ == node
    }

    pub open spec fn with_session(self, i: int, session: SessionModel) -> DataflowModel {
        DataflowModel { sessions: self.sessions.update(i, session), ..self }
    }

    /// The error that `register` answers with, if any.
    pub open spec fn register_error(self, node: Seq<char>) -> Option<DaemonError> {
        if !self.knows(node) {
            Some(DaemonError::UnknownNode)
        } else if self.sessions[self.index_of(node)].state != SessionState::Unregistered {
            Some(DaemonError::ProtocolError)
        } else {
            None
        }
    }

    pub open spec fn register(self, node: Seq<char>) -> DataflowModel {
        let i = self.index_of(node);
        self.with_session(i, self.sessions[i].register())
    }

    /// The node is told to load an operator anew.
    pub open spec fn reload(self, node: Seq<char>, operator_id: Option<Seq<char>>) -> DataflowModel {
        let i = self.index_of(node);
        self.with_session(i, self.sessions[i].queue(NodeEventView::Reload { operator_id }))
    }

    /// The error that `subscribe` answers with, if any.
    pub open spec fn subscribe_error(self, node: Seq<char>) -> Option<DaemonError> {
        if !self.knows(node) {
            Some(DaemonError::UnknownNode)
        } else if self.sessions[self.index_of(node)].state != SessionState::Registered {
            Some(DaemonError::ProtocolError)
        } else {
            None
        }
    }

    pub open spec fn subscribe(self, node: Seq<char>) -> DataflowModel {
        let i = self.index_of(node);
        self.with_session(i, self.sessions[i].subscribe())
    }

    /// Every node is told to stop.
    pub open spec fn stop_all(self) -> DataflowModel {
        DataflowModel {
            sessions: Seq::new(self.sessions.len(), |i: int| self.sessions[i].request_stop()),
            ..self
        }
    }

    /// The sessions after `output` of `source` has been routed to every
    /// open input that listens to it.
    pub open spec fn fan_out(
        self,
        source: Seq<char>,
        output: Seq<char>,
        metadata: Seq<u8>,
        data: Option<DataView>,
    ) -> Seq<SessionModel> {
        Seq::new(
            self.sessions.len(),
            |i: int|
                self.sessions[i].deliver(
                    self.nodes[i].run_config.inputs@,
                    source,
                    output,
                    metadata,
                    data,
                ),
        )
    }

    /// The local nodes that an output reaches.
    pub open spec fn receivers(self, source: Seq<char>, output: Seq<char>) -> Set<Seq<char>> {
        Set::new(
            |n: Seq<char>|
                exists|i: int|
                    0 <= i < self.nodes.len() && (#[trigger] self.nodes[i]).id@ == n
                        && self.sessions[i].receives(
                        self.nodes[i].run_config.inputs@,
                        source,
                        output,
                    ),
        )
    }

    /// The error that `send_message` answers with, if any.
    pub open spec fn send_error(self, node: Seq<char>, output: Seq<char>, data: Option<DataView>)
        -> Option<DaemonError> {
        if !self.knows(node) {
            Some(DaemonError::UnknownNode)
        } else if !self.sessions[self.index_of(node)].connected() {
            Some(DaemonError::ProtocolError)
        } else if !self.nodes[self.index_of(node)].run_config.declares(output) {
            Some(DaemonError::UnknownOutput)
        } else {
            match data {
                Some(DataView::SharedMemory { shared_memory_id, drop_token, .. }) => {
                    match self.ledger.publish_error(shared_memory_id.0 as nat, drop_token) {
                        Some(error) => Some(DaemonError::Ledger(error)),
                        None => None,
                    }
                },
                _ => None,
            }
        }
    }

    /// The dataflow after a message was sent: every listening input has its
    /// `Input` event, a shared-memory payload is published to the nodes
    /// that received it, and the sender has its token noted.
    pub open spec fn send_message(
        self,
        node: Seq<char>,
        output: Seq<char>,
        metadata: Seq<u8>,
        data: Option<DataView>,
    ) -> DataflowModel {
        let routed = self.fan_out(node, output, metadata, data);
        let s = self.index_of(node);
        match data {
            Some(DataView::SharedMemory { shared_memory_id, drop_token, .. }) => DataflowModel {
                sessions: routed.update(s, routed[s].note_sent(drop_token)),
                ledger: self.ledger.publish(
                    shared_memory_id.0 as nat,
                    self.receivers(node, output),
                    drop_token,
                ),
                ..self
            },
            _ => DataflowModel { sessions: routed, ..self },
        }
    }
}

impl DataflowModel {
    /// The region of a shared-memory payload that reaches no local node.
    pub open spec fn stranded(self, node: Seq<char>, output: Seq<char>, data: Option<DataView>)
        -> Option<SharedMemoryId> {
        match data {
            Some(DataView::SharedMemory { shared_memory_id, .. }) => if self.receivers(
                node,
                output,
            ) =~= Set::empty() {
                Some(shared_memory_id)
            } else {
                None
            },
            _ => None,
        }
    }

    /// The dataflow after an output that was sent on another machine has
    /// been routed to the local inputs that listen to it.
    pub open spec fn deliver_output(
        self,
        source: Seq<char>,
        output: Seq<char>,
        metadata: Seq<u8>,
        data: Option<Seq<u8>>,
    ) -> DataflowModel {
        DataflowModel {
            sessions: self.fan_out(
                source,
                output,
                metadata,
                match data {
                    Some(bytes) => Some(DataView::Vec(bytes)),
                    None => None,
                },
            ),
            ..self
        }
    }

    /// The error that a request answers with which only a connected node
    /// may make.
    pub open spec fn connection_error(self, node: Seq<char>) -> Option<DaemonError> {
        if !self.knows(node) {
            Some(DaemonError::UnknownNode)
        } else if !self.sessions[self.index_of(node)].connected() {
            Some(DaemonError::ProtocolError)
        } else {
            None
        }
    }

    /// The error that `next_event` answers with, if any.
    pub open spec fn fetch_error(self, node: Seq<char>) -> Option<DaemonError> {
        if !self.knows(node) {
            Some(DaemonError::UnknownNode)
        } else if !self.sessions[self.index_of(node)].accepts() {
            Some(DaemonError::ProtocolError)
        } else {
            None
        }
    }

    /// The tokens are acknowledged, in the ledger and in the node's record.
    pub open spec fn acknowledge(self, node: Seq<char>, tokens: Seq<DropToken>) -> DataflowModel {
        let i = self.index_of(node);
        DataflowModel {
            sessions: self.sessions.update(i, self.sessions[i].acknowledge_all(tokens)),
            ledger: self.ledger.acknowledge_tokens(node, tokens),
            ..self
        }
    }

    /// The tokens are acknowledged, and then the inbox is handed out.
    pub open spec fn next_event(self, node: Seq<char>, tokens: Seq<DropToken>) -> DataflowModel {
        let i = self.index_of(node);
        let acknowledged = self.acknowledge(node, tokens);
        acknowledged.with_session(i, acknowledged.sessions[i].drain())
    }

    /// Every input that listens to `output` of `node` is closed.
    pub open spec fn close_output(self, node: Seq<char>, output: Seq<char>) -> DataflowModel {
        DataflowModel {
            sessions: Seq::new(
                self.sessions.len(),
                |i: int|
                    self.sessions[i].close_source(self.nodes[i].run_config.inputs@, node, output),
            ),
            ..self
        }
    }

    pub open spec fn close_outputs(self, node: Seq<char>, outputs: Seq<Seq<char>>) -> DataflowModel
        decreases outputs.len(),
    {
        if outputs.len() == 0 {
            self
        } else {
            self.close_outputs(node, outputs.drop_last()).close_output(node, outputs.last())
        }
    }

    /// The error that `close_outputs` answers with, if any.
    pub open spec fn close_error(self, node: Seq<char>, outputs: Seq<Seq<char>>) -> Option<
        DaemonError,
    > {
        if self.connection_error(node) is Some {
            self.connection_error(node)
        } else if exists|k: int|
            0 <= k < outputs.len() && !self.nodes[self.index_of(node)].run_config.declares(
                #[trigger] outputs[k],
            ) {
            Some(DaemonError::UnknownOutput)
        } else {
            None
        }
    }

    /// The node is done with its outputs: each of them is closed, and the
    /// node is draining.
    pub open spec fn outputs_done(self, node: Seq<char>) -> DataflowModel {
        let i = self.index_of(node);
        let closed = self.close_outputs(node, names_of(self.nodes[i].run_config.outputs@));
        closed.with_session(i, closed.sessions[i].outputs_done())
    }

    /// The error that `event_stream_dropped` answers with, if any.
    pub open spec fn drop_error(self, node: Seq<char>) -> Option<DaemonError> {
        if !self.knows(node) {
            Some(DaemonError::UnknownNode)
        } else if self.sessions[self.index_of(node)].state == SessionState::Closed {
            Some(DaemonError::ProtocolError)
        } else {
            None
        }
    }

    /// The node is gone: its outputs are closed, its session is closed, and
    /// every acknowledgment that it owed is taken as given.
    pub open spec fn event_stream_dropped(self, node: Seq<char>) -> DataflowModel {
        let i = self.index_of(node);
        let closed = self.close_outputs(node, names_of(self.nodes[i].run_config.outputs@));
        DataflowModel {
            sessions: closed.sessions.update(i, closed.sessions[i].close()),
            ledger: self.ledger.force_release(node),
            ..self
        }
    }

    /// The node goes without having been told to stop and without having
    /// said that it was done.
    pub open spec fn exits_early(self, node: Seq<char>) -> bool {
        let session = self.sessions[self.index_of(node)];
        !session.stop_requested && session.state != SessionState::Draining
    }

    pub open spec fn subscribe_drop(self, node: Seq<char>) -> DataflowModel {
        let i = self.index_of(node);
        self.with_session(i, self.sessions[i].subscribe_drop())
    }

    pub open spec fn next_finished_drop_tokens(self, node: Seq<char>) -> DataflowModel {
        let i = self.index_of(node);
        self.with_session(i, self.sessions[i].settle(self.ledger))
    }

    /// The error that `prepare_message` answers with, if any.
    pub open spec fn prepare_error(self, node: Seq<char>) -> Option<DaemonError> {
        if self.connection_error(node) is Some {
            self.connection_error(node)
        } else if self.ledger.next >= u64::MAX {
            Some(DaemonError::Ledger(LedgerError::Exhausted))
        } else {
            None
        }
    }

    pub open spec fn prepare_message(self, len: nat) -> DataflowModel {
        DataflowModel { ledger: self.ledger.allocate(len), ..self }
    }
}

/// Closing a source changes no session's name, dataflow or state.
pub proof fn lemma_close_source_keeps(
    session: SessionModel,
    inputs: Seq<InputMapping>,
    source: Seq<char>,
    output: Seq<char>,
)
    ensures
        ({
            let after = session.close_source(inputs, source, output);
            &&& after.state == session.state
            &&& after.node_id == session.node_id
            &&& after.dataflow_id == session.dataflow_id
            &&& after.stop_requested == session.stop_requested
            &&& after.owed == session.owed
            &&& after.sent == session.sent
        }),
    decreases inputs.len(),
{
    if inputs.len() > 0 {
        lemma_close_source_keeps(session, inputs.drop_last(), source, output);
    }
}

/// Closing outputs keeps the dataflow consistent and changes no session's
/// state, nor the ledger.
pub proof fn lemma_close_outputs_keeps(model: DataflowModel, node: Seq<char>, outputs: Seq<Seq<char>>)
    requires
        model.wf(),
    ensures
        ({
            let after = model.close_outputs(node, outputs);
            &&& after.wf()
            &&& after.nodes == model.nodes
            &&& after.remote == model.remote
            &&& after.id == model.id
            &&& after.working_dir == model.working_dir
            &&& after.communication == model.communication
            &&& after.ledger == model.ledger
            &&& forall|i: int|
                0 <= i < model.sessions.len() ==> (#[trigger] after.sessions[i]).state
                    == model.sessions[i].state && after.sessions[i].stop_requested
                    == model.sessions[i].stop_requested && after.sessions[i].owed
                    == model.sessions[i].owed && after.sessions[i].sent == model.sessions[i].sent
        }),
    decreases outputs.len(),
{
    if outputs.len() > 0 {
        lemma_close_outputs_keeps(model, node, outputs.drop_last());
        let before = model.close_outputs(node, outputs.drop_last());
        let after = before.close_output(node, outputs.last());
        assert forall|i: int| 0 <= i < model.sessions.len() implies (#[trigger] after.sessions[i]).state
            == model.sessions[i].state && after.sessions[i].stop_requested
            == model.sessions[i].stop_requested && after.sessions[i].owed
            == model.sessions[i].owed && after.sessions[i].sent == model.sessions[i].sent
            && after.sessions[i].node_id == model.nodes[i].id@ && after.sessions[i].dataflow_id
            == model.id by {
            lemma_close_source_keeps(
                before.sessions[i],
                before.nodes[i].run_config.inputs@,
                node,
                outputs.last(),
            );
            assert(before.sessions[i].state == model.sessions[i].state);
        }
    }
}

/// When a node goes, no other node is disturbed: each keeps its state, the
/// tokens that it owes and the tokens that it has sent under; all that it
/// may learn is that inputs of its own have closed.
pub proof fn lemma_drop_spares_others(model: DataflowModel, node: Seq<char>, other: int)
    requires
        model.wf(),
        model.drop_error(node) is None,
        0 <= other < model.sessions.len(),
        other != model.index_of(node),
    ensures
        ({
            let after = model.event_stream_dropped(node);
            &&& after.sessions[other].state == model.sessions[other].state
            &&& after.sessions[other].stop_requested == model.sessions[other].stop_requested
            &&& after.sessions[other].owed == model.sessions[other].owed
            &&& after.sessions[other].sent == model.sessions[other].sent
            &&& after.sessions[other] == model.sessions[other].close_outputs_of(
                model.nodes[other].run_config.inputs@,
                node,
                names_of(model.nodes[model.index_of(node)].run_config.outputs@),
            )
        }),
{
    let outputs = names_of(model.nodes[model.index_of(node)].run_config.outputs@);
    lemma_close_outputs_keeps(model, node, outputs);
    lemma_close_outputs_pointwise(model, node, outputs, other);
}

/// Closing outputs acts on each session by itself.
pub proof fn lemma_close_outputs_pointwise(
    model: DataflowModel,
    node: Seq<char>,
    outputs: Seq<Seq<char>>,
    i: int,
)
    requires
        0 <= i < model.sessions.len(),
    ensures
        model.close_outputs(node, outputs).sessions.len() == model.sessions.len(),
        model.close_outputs(node, outputs).nodes == model.nodes,
        model.close_outputs(node, outputs).sessions[i] == model.sessions[i].close_outputs_of(
            model.nodes[i].run_config.inputs@,
            node,
            outputs,
        ),
    decreases outputs.len(),
{
    if outputs.len() > 0 {
        lemma_close_outputs_pointwise(model, node, outputs.drop_last(), i);
    }
}

/// What `next_event` hands out.
#[derive(Debug)]
pub struct Fetched {
    /// The events that waited, oldest first. Where there is none the
    /// connection has to wait until one is queued.
    pub events: Vec<NodeEvent>,
    /// The regions that the acknowledgments released.
    pub released: Vec<SharedMemoryId>,
}

/// What the end of a node's connection leaves behind.
#[derive(Debug)]
pub struct Dropped {
    /// The acknowledgments that the node owed and that were taken as given.
    /// Where there is one, the node may not have finished reading: the
    /// caller logs a warning.
    pub forced: Vec<ForcedAck>,
    /// The node went without having been told to stop and without having
    /// said that it was done: the supervisor counts that as a failure.
    pub early: bool,
}

/// What became of a message beyond the local inboxes.
#[derive(Debug, Clone, Copy, PartialEq, Eq, Structural)]
pub struct SendOutcome {
    /// Some node on another machine listens to the output: the message is
    /// to be forwarded through the coordinator, its payload as bytes.
    pub forward: bool,
    /// The region of a shared-memory payload that no local node received:
    /// it was released at once.
    pub released: Option<SharedMemoryId>,
}

/// One dataflow on one daemon.
pub struct RunningDataflow {
    id: DataflowId,
    working_dir: String,
    communication: DaemonCommunicationConfig,
    nodes: Vec<ResolvedNode>,
    remote: Vec<ResolvedNode>,
    sessions: Vec<NodeSession>,
    ledger: Ledger,
}

/// The sessions as mathematical values, in order.
pub open spec fn sessions_view(sessions: Seq<NodeSession>) -> Seq<SessionModel> {
    sessions.map_values(|session: NodeSession| session@)
}

impl View for RunningDataflow {
    type V = DataflowModel;

    closed spec fn view(&self) -> DataflowModel {
        DataflowModel {
            id: self.id,
            working_dir: self.working_dir,
            communication: self.communication,
            nodes: self.nodes@,
            remote: self.remote@,
            sessions: sessions_view(self.sessions@),
            ledger: self.ledger@,
        }
    }
}

/// Whether some input among `nodes` listens to `output` of `source`.
fn is_heard_by(nodes: &Vec<ResolvedNode>, source: &NodeId, output: &DataId) -> (heard: bool)
    ensures
        heard == heard_by(nodes@, source@, output@),
{
    let mut i: usize = 0;
    while i < nodes.len()
        invariant
            i <= nodes.len(),
            forall|a: int, k: int|
                0 <= a < i && 0 <= k < nodes[a].run_config.inputs.len()
                    ==> !#[trigger] nodes[a].run_config.inputs[k].listens_to(source@, output@),
        decreases nodes.len() - i,
    {
        let inputs = &nodes[i].run_config.inputs;
        let mut k: usize = 0;
        while k < inputs.len()
            invariant
                k <= inputs.len(),
                i < nodes.len(),
                inputs == &nodes[i as int].run_config.inputs,
                forall|a: int, b: int|
                    0 <= a < i && 0 <= b < nodes[a].run_config.inputs.len()
                        ==> !#[trigger] nodes[a].run_config.inputs[b].listens_to(source@, output@),
                forall|b: int|
                    0 <= b < k ==> !#[trigger] nodes[i as int].run_config.inputs[b].listens_to(
                        source@,
                        output@,
                    ),
            decreases inputs.len() - k,
        {
            if inputs[k].is_fed_by(source, output) {
                return true;
            }
            k += 1;
        }
        i += 1;
    }
    false
}

impl RunningDataflow {
    /// The records agree with one another.
    pub closed spec fn wf(&self) -> bool {
        &&& self@.wf()
        &&& self.ledger.wf()
    }

    /// A consistent dataflow shows a consistent model.
    pub proof fn lemma_model_wf(&self)
        requires
            self.wf(),
        ensures
            self@.wf(),
    {
    }

    /// Index of the local node of this name.
    fn find(&self, node: &NodeId) -> (at: Option<usize>)
        requires
            self.wf(),
        ensures
            match at {
                Some(i) => self@.knows(node@) && i == self@.index_of(node@) && i
                    < self.nodes.len(),
                None => !self@.knows(node@),
            },
    {
        let mut i: usize = 0;
        while i < self.nodes.len()
            invariant
                self.wf(),
                i <= self.nodes.len(),
                forall|j: int| 0 <= j < i ==> (#[trigger] self.nodes[j]).id@ != node@,
            decreases self.nodes.len() - i,
        {
            if self.nodes[i].id.same(node) {
                proof {
                    let k = self@.index_of(node@);
                    assert(self.nodes[i as int].id@ == node@);
                    if k < i {
                        assert(self.nodes[k].id@ != self.nodes[i as int].id@);
                    } else if i < k {
                        assert(self.nodes[i as int].id@ != self.nodes[k].id@);
                    }
                }
                return Some(i);
            }
            i += 1;
        }
        None
    }

    /// The dataflow as it stands when its nodes have been spawned and none
    /// has registered. `nodes` run on this machine, `remote` elsewhere.
    pub fn new(
        id: DataflowId,
        working_dir: String,
        communication: DaemonCommunicationConfig,
        nodes: Vec<ResolvedNode>,
        remote: Vec<ResolvedNode>,
    ) -> (dataflow: Result<RunningDataflow, DaemonError>)
        ensures
            match dataflow {
                Ok(dataflow) => {
                    &&& distinct_ids(nodes@)
                    &&& dataflow.wf()
                    &&& dataflow@.id == id
                    &&& dataflow@.working_dir == working_dir
                    &&& dataflow@.communication == communication
                    &&& dataflow@.nodes == nodes@
                    &&& dataflow@.remote == remote@
                    &&& dataflow@.ledger == LedgerModel::empty()
                    &&& dataflow@.sessions.len() == nodes.len()
                    &&& forall|i: int|
                        0 <= i < nodes.len() ==> #[trigger] dataflow@.sessions[i]
                            == SessionModel::fresh(
                            nodes[i].id@,
                            id,
                            input_names(nodes[i].run_config.inputs@),
                        )
                },
                Err(error) => error == DaemonError::DuplicateNode && !distinct_ids(nodes@),
            },
    {
        let mut sessions: Vec<NodeSession> = Vec::new();
        let mut i: usize = 0;
        while i < nodes.len()
            invariant
                i <= nodes.len(),
                sessions.len() == i,
                distinct_ids(nodes@.subrange(0, i as int)),
                forall|j: int|
                    0 <= j < i ==> (#[trigger] sessions[j])@ == SessionModel::fresh(
                        nodes[j].id@,
                        id,
                        input_names(nodes[j].run_config.inputs@),
                    ),
            decreases nodes.len() - i,
        {
            let mut j: usize = 0;
            while j < i
                invariant
                    j <= i,
                    i < nodes.len(),
                    forall|a: int| 0 <= a < j ==> (#[trigger] nodes[a]).id@ != nodes[i as int].id@,
                decreases i - j,
            {
                if nodes[j].id.same(&nodes[i].id) {
                    return Err(DaemonError::DuplicateNode);
                }
                j += 1;
            }
            let session = NodeSession::new(nodes[i].id.duplicate(), id, &nodes[i].run_config.inputs);
            sessions.push(session);
            proof {
                let wider = nodes@.subrange(0, i + 1);
                let seen = nodes@.subrange(0, i as int);
                assert forall|a: int, b: int| 0 <= a < b < wider.len() implies (
                #[trigger] wider[a]).id@ != (#[trigger] wider[b]).id@ by {
                    if b < i {
                        assert(seen[a].id@ != seen[b].id@);
                    } else {
                        assert(nodes[a].id@ != nodes[i as int].id@);
                    }
                }
            }
            i += 1;
        }
        assert(nodes@.subrange(0, nodes.len() as int) =~= nodes@);
        let dataflow = RunningDataflow {
            id,
            working_dir,
            communication,
            nodes,
            remote,
            sessions,
            ledger: Ledger::new(),
        };
        proof {
            dataflow.ledger.lemma_model_wf();
        }
        Ok(dataflow)
    }

    /// The identifier of the dataflow.
    pub fn id(&self) -> (id: DataflowId)
        ensures
            id == self@.id,
    {
        self.id
    }

    /// The transport between the daemon and the nodes of the dataflow.
    pub fn communication(&self) -> (config: DaemonCommunicationConfig)
        ensures
            config == self@.communication,
    {
        self.communication
    }

    /// The directory that the nodes of the dataflow are started in.
    pub fn working_dir(&self) -> (dir: &String)
        ensures
            *dir == self@.working_dir,
    {
        &self.working_dir
    }

    /// The coordinator asks for an operator of `node` to be loaded anew;
    /// `None` stands for every operator. The node is told so with its next
    /// events.
    pub fn reload(&mut self, node: &NodeId, operator_id: Option<OperatorId>) -> (done: Result<
        (),
        DaemonError,
    >)
        requires
            old(self).wf(),
        ensures
            final(self).wf(),
            match old(self)@.connection_error(node@) {
                Some(error) => done == Err::<(), DaemonError>(error) && final(self)@ == old(self)@,
                None => done == Ok::<(), DaemonError>(()) && final(self)@ == old(self)@.reload(
                    node@,
                    match operator_id {
                        Some(id) => Some(id@),
                        None => None,
                    },
                ),
            },
    {
        let at = match self.find(node) {
            Some(i) => i,
            None => {
                return Err(DaemonError::UnknownNode);
            },
        };
        if !self.sessions[at].connected() {
            return Err(DaemonError::ProtocolError);
        }
        let ghost before = self.sessions@;
        let mut session = self.sessions.remove(at);
        session.queue(NodeEvent::Reload { operator_id });
        self.sessions.insert(at, session);
        proof {
            assert(self.sessions@ =~= before.update(at as int, session));
            assert(sessions_view(before.update(at as int, session)) =~= sessions_view(
                before,
            ).update(at as int, session@));
        }
        Ok(())
    }

    /// How many events wait for `node`, if the dataflow has such a node.
    pub fn waiting(&self, node: &NodeId) -> (count: Option<usize>)
        requires
            self.wf(),
        ensures
            count == if self@.knows(node@) {
                Some(self@.sessions[self@.index_of(node@)].inbox.len() as usize)
            } else {
                None
            },
    {
        match self.find(node) {
            Some(i) => Some(self.sessions[i].waiting()),
            None => None,
        }
    }

    /// The state of the session of `node`, if the dataflow has such a node.
    pub fn session_state(&self, node: &NodeId) -> (state: Option<SessionState>)
        requires
            self.wf(),
        ensures
            state == if self@.knows(node@) {
                Some(self@.sessions[self@.index_of(node@)].state)
            } else {
                None
            },
    {
        match self.find(node) {
            Some(i) => Some(self.sessions[i].state()),
            None => None,
        }
    }

    /// Whether the region has been released.
    pub fn is_released(&self, region: SharedMemoryId) -> (gone: bool)
        requires
            self.wf(),
        ensures
            gone == self@.ledger.released(region.0 as nat),
    {
        self.ledger.is_released(region)
    }

    /// A node announces itself on a fresh connection.
    pub fn register(&mut self, node: &NodeId) -> (done: Result<(), DaemonError>)
        requires
            old(self).wf(),
        ensures
            final(self).wf(),
            match old(self)@.register_error(node@) {
                Some(error) => done == Err::<(), DaemonError>(error) && final(self)@ == old(self)@,
                None => done == Ok::<(), DaemonError>(()) && final(self)@ == old(self)@.register(
                    node@,
                ),
            },
    {
        let at = match self.find(node) {
            Some(i) => i,
            None => {
                return Err(DaemonError::UnknownNode);
            },
        };
        if self.sessions[at].state() != SessionState::Unregistered {
            return Err(DaemonError::ProtocolError);
        }
        let ghost before = self.sessions@;
        let mut session = self.sessions.remove(at);
        session.register();
        self.sessions.insert(at, session);
        proof {
            assert(self.sessions@ =~= before.update(at as int, session));
            assert(sessions_view(before.update(at as int, session)) =~= sessions_view(
                before,
            ).update(at as int, session@));
        }
        Ok(())
    }

    /// A registered node asks for its events to be queued.
    pub fn subscribe(&mut self, node: &NodeId) -> (done: Result<(), DaemonError>)
        requires
            old(self).wf(),
        ensures
            final(self).wf(),
            match old(self)@.subscribe_error(node@) {
                Some(error) => done == Err::<(), DaemonError>(error) && final(self)@ == old(self)@,
                None => done == Ok::<(), DaemonError>(()) && final(self)@ == old(self)@.subscribe(
                    node@,
                ),
            },
    {
        let at = match self.find(node) {
            Some(i) => i,
            None => {
                return Err(DaemonError::UnknownNode);
            },
        };
        if self.sessions[at].state() != SessionState::Registered {
            return Err(DaemonError::ProtocolError);
        }
        let ghost before = self.sessions@;
        let mut session = self.sessions.remove(at);
        session.subscribe();
        self.sessions.insert(at, session);
        proof {
            assert(self.sessions@ =~= before.update(at as int, session));
            assert(sessions_view(before.update(at as int, session)) =~= sessions_view(
                before,
            ).update(at as int, session@));
        }
        Ok(())
    }

    /// Tells every node of the dataflow to stop.
    pub fn stop_all(&mut self)
        requires
            old(self).wf(),
        ensures
            final(self).wf(),
            final(self)@ == old(self)@.stop_all(),
    {
        let ghost before = self.sessions@;
        let mut rest: Vec<NodeSession> = Vec::new();
        core::mem::swap(&mut self.sessions, &mut rest);
        for session in it: rest
            invariant
                it.seq() == before,
                self.sessions.len() == it.index(),
                self.nodes == old(self).nodes,
                self.remote == old(self).remote,
                self.working_dir == old(self).working_dir,
                self.communication == old(self).communication,
                self.id == old(self).id,
                self.ledger == old(self).ledger,
                forall|j: int|
                    0 <= j < it.index() ==> (#[trigger] self.sessions[j])@
                        == before[j]@.request_stop(),
        {
            let mut session = session;
            session.request_stop();
            self.sessions.push(session);
        }
        assert(self@.sessions =~= old(self)@.stop_all().sessions);
    }

    /// Routes a message to the inboxes, and collects the local nodes that
    /// received it.
    fn fan_out(
        &mut self,
        source: &NodeId,
        output: &DataId,
        metadata: &Metadata,
        data: &Option<Data>,
    ) -> (receivers: Vec<NodeId>)
        requires
            old(self).wf(),
        ensures
            final(self).wf(),
            final(self)@ == (DataflowModel {
                sessions: old(self)@.fan_out(source@, output@, metadata@, payload_view(*data)),
                ..old(self)@
            }),
            final(self).ledger == old(self).ledger,
            node_set(receivers@) == old(self)@.receivers(source@, output@),
    {
        let ghost before = self.sessions@;
        let ghost model = self@;
        let mut rest: Vec<NodeSession> = Vec::new();
        core::mem::swap(&mut self.sessions, &mut rest);
        let mut receivers: Vec<NodeId> = Vec::new();
        for session in it: rest
            invariant
                it.seq() == before,
                model == old(self)@,
                model.wf(),
                before.len() == self.nodes.len(),
                sessions_view(before) == model.sessions,
                self.sessions.len() == it.index(),
                self.nodes == old(self).nodes,
                self.remote == old(self).remote,
                self.working_dir == old(self).working_dir,
                self.communication == old(self).communication,
                self.id == old(self).id,
                self.ledger == old(self).ledger,
                forall|j: int|
                    0 <= j < it.index() ==> (#[trigger] self.sessions[j])@ == before[j]@.deliver(
                        self.nodes[j].run_config.inputs@,
                        source@,
                        output@,
                        metadata@,
                        payload_view(*data),
                    ),
                forall|n: Seq<char>|
                    node_set(receivers@).contains(n) <==> exists|i: int|
                        0 <= i < it.index() && (#[trigger] self.nodes[i]).id@ == n
                            && before[i]@.receives(
                            self.nodes[i].run_config.inputs@,
                            source@,
                            output@,
                        ),
        {
            let ghost at = it.index() as int;
            let ghost found = receivers@;
            let mut session = session;
            let received = session.deliver(
                &self.nodes[self.sessions.len()].run_config.inputs,
                source,
                output,
                metadata,
                data,
            );
            if received {
                let copy = self.nodes[self.sessions.len()].id.duplicate();
                receivers.push(copy);
                proof {
                    lemma_node_set_push(found, copy);
                }
            }
            self.sessions.push(session);
            proof {
                assert forall|n: Seq<char>| node_set(receivers@).contains(n) <==> exists|i: int|
                    0 <= i < at + 1 && (#[trigger] self.nodes[i]).id@ == n && before[i]@.receives(
                        self.nodes[i].run_config.inputs@,
                        source@,
                        output@,
                    ) by {
                    if node_set(receivers@).contains(n) {
                        if node_set(found).contains(n) {
                            let i = choose|i: int|
                                0 <= i < at && (#[trigger] self.nodes[i]).id@ == n
                                    && before[i]@.receives(
                                    self.nodes[i].run_config.inputs@,
                                    source@,
                                    output@,
                                );
                            assert(self.nodes[i].id@ == n);
                        } else {
                            assert(self.nodes[at].id@ == n);
                        }
                    }
                    if exists|i: int|
                        0 <= i < at + 1 && (#[trigger] self.nodes[i]).id@ == n
                            && before[i]@.receives(
                            self.nodes[i].run_config.inputs@,
                            source@,
                            output@,
                        ) {
                        let i = choose|i: int|
                            0 <= i < at + 1 && (#[trigger] self.nodes[i]).id@ == n
                                && before[i]@.receives(
                                self.nodes[i].run_config.inputs@,
                                source@,
                                output@,
                            );
                        if i < at {
                            assert(self.nodes[i].id@ == n);
                        }
                    }
                }
            }
        }
        proof {
            let want = model.fan_out(source@, output@, metadata@, payload_view(*data));
            assert(self@.sessions =~= want) by {
                assert forall|j: int| 0 <= j < want.len() implies self@.sessions[j] == want[j] by {
                    assert(self.sessions[j]@ == before[j]@.deliver(
                        self.nodes[j].run_config.inputs@,
                        source@,
                        output@,
                        metadata@,
                        payload_view(*data),
                    ));
                    assert(model.sessions[j] == before[j]@);
                }
            }
            assert(node_set(receivers@) =~= model.receivers(source@, output@)) by {
                assert forall|n: Seq<char>|
                    node_set(receivers@).contains(n) <==> model.receivers(
                        source@,
                        output@,
                    ).contains(n) by {
                    if model.receivers(source@, output@).contains(n) {
                        let i = choose|i: int|
                            0 <= i < model.nodes.len() && (#[trigger] model.nodes[i]).id@ == n
                                && model.sessions[i].receives(
                                model.nodes[i].run_config.inputs@,
                                source@,
                                output@,
                            );
                        assert(model.sessions[i] == before[i]@);
                        assert(self.nodes[i].id@ == n);
                    }
                    if node_set(receivers@).contains(n) {
                        let i = choose|i: int|
                            0 <= i < before.len() && (#[trigger] self.nodes[i]).id@ == n
                                && before[i]@.receives(
                                self.nodes[i].run_config.inputs@,
                                source@,
                                output@,
                            );
                        assert(model.sessions[i] == before[i]@);
                        assert(model.nodes[i].id@ == n);
                    }
                }
            }
            lemma_deliver_keeps(model, source@, output@, metadata@, payload_view(*data));
        }
        receivers
    }

    /// A node sends a message on one of its outputs.
    pub fn send_message(
        &mut self,
        node: &NodeId,
        output: &DataId,
        metadata: &Metadata,
        data: &Option<Data>,
    ) -> (sent: Result<SendOutcome, DaemonError>)
        requires
            old(self).wf(),
        ensures
            final(self).wf(),
            match old(self)@.send_error(node@, output@, payload_view(*data)) {
                Some(error) => sent == Err::<SendOutcome, DaemonError>(error) && final(self)@
                    == old(self)@,
                None => sent == Ok::<SendOutcome, DaemonError>(
                    SendOutcome {
                        forward: heard_by(old(self)@.remote, node@, output@),
                        released: old(self)@.stranded(node@, output@, payload_view(*data)),
                    },
                ) && final(self)@ == old(self)@.send_message(
                    node@,
                    output@,
                    metadata@,
                    payload_view(*data),
                ),
            },
    {
        let ghost model = self@;
        let at = match self.find(node) {
            Some(i) => i,
            None => {
                return Err(DaemonError::UnknownNode);
            },
        };
        if !self.sessions[at].connected() {
            return Err(DaemonError::ProtocolError);
        }
        if !self.nodes[at].run_config.declares_output(output) {
            return Err(DaemonError::UnknownOutput);
        }
        let shared = match data {
            Some(Data::SharedMemory { shared_memory_id, drop_token, .. }) => Some(
                (*shared_memory_id, *drop_token),
            ),
            _ => None,
        };
        if let Some((region, token)) = shared {
            if let Some(error) = self.ledger.check_publish(region, token) {
                return Err(DaemonError::Ledger(error));
            }
        }
        let forward = is_heard_by(&self.remote, node, output);
        let receivers = self.fan_out(node, output, metadata, data);
        let mut released: Option<SharedMemoryId> = None;
        if let Some((region, token)) = shared {
            let _ = self.ledger.publish(region, &receivers, token);
            proof {
                lemma_node_set_empty(receivers@);
            }
            if receivers.len() == 0 {
                released = Some(region);
            }
            let ghost routed = self.sessions@;
            let mut session = self.sessions.remove(at);
            session.note_sent(token);
            self.sessions.insert(at, session);
            proof {
                assert(self.sessions@ =~= routed.update(at as int, session));
                assert(sessions_view(routed.update(at as int, session)) =~= sessions_view(
                    routed,
                ).update(at as int, session@));
                model.ledger.lemma_publish_wf(
                    region.0 as nat,
                    model.receivers(node@, output@),
                    token,
                );
                lemma_deliver_keeps(model, node@, output@, metadata@, payload_view(*data));
                assert forall|i: int| 0 <= i < self@.nodes.len() implies (
                #[trigger] self@.sessions[i]).node_id == self@.nodes[i].id@
                    && self@.sessions[i].dataflow_id == self@.id by {
                    assert(sessions_view(routed)[i].node_id == model.nodes[i].id@);
                }
            }
        }
        Ok(SendOutcome { forward, released })
    }

    /// An output that was sent on another machine arrives through the
    /// coordinator, its payload as bytes.
    pub fn deliver_output(
        &mut self,
        source: &NodeId,
        output: &DataId,
        metadata: &Metadata,
        data: Option<Vec<u8>>,
    )
        requires
            old(self).wf(),
        ensures
            final(self).wf(),
            final(self)@ == old(self)@.deliver_output(
                source@,
                output@,
                metadata@,
                match data {
                    Some(bytes) => Some(bytes@),
                    None => None,
                },
            ),
    {
        let payload = match data {
            Some(bytes) => Some(Data::Vec(bytes)),
            None => None,
        };
        let _ = self.fan_out(source, output, metadata, &payload);
    }

    /// A node reports the tokens that it is done with, and fetches the
    /// events that wait for it. The tokens are acknowledged first.
    pub fn next_event(&mut self, node: &NodeId, drop_tokens: &Vec<DropToken>) -> (fetched: Result<
        Fetched,
        DaemonError,
    >)
        requires
            old(self).wf(),
        ensures
            final(self).wf(),
            match old(self)@.fetch_error(node@) {
                Some(error) => fetched == Err::<Fetched, DaemonError>(error) && final(self)@
                    == old(self)@,
                None => {
                    &&& fetched matches Ok(fetched)
                    &&& crate::daemon_messages::events_view(fetched.events@) == old(
                        self,
                    )@.sessions[old(self)@.index_of(node@)].inbox
                    &&& fetched.released@ == old(self)@.ledger.released_by(node@, drop_tokens@)
                    &&& final(self)@ == old(self)@.next_event(node@, drop_tokens@)
                },
            },
    {
        let ghost model = self@;
        let at = match self.find(node) {
            Some(i) => i,
            None => {
                return Err(DaemonError::UnknownNode);
            },
        };
        if !self.sessions[at].accepts() {
            return Err(DaemonError::ProtocolError);
        }
        let released = self.ledger.acknowledge_tokens(node, drop_tokens);
        let ghost before = self.sessions@;
        let mut session = self.sessions.remove(at);
        session.acknowledge_all(drop_tokens);
        let events = session.drain();
        self.sessions.insert(at, session);
        proof {
            assert(self.sessions@ =~= before.update(at as int, session));
            assert(sessions_view(before.update(at as int, session)) =~= sessions_view(
                before,
            ).update(at as int, session@));
            model.ledger.lemma_acknowledge_tokens_wf(node@, drop_tokens@);
            lemma_acknowledge_all_keeps(model.sessions[at as int], drop_tokens@);
            assert(self@.sessions =~= model.next_event(node@, drop_tokens@).sessions);
        }
        Ok(Fetched { events, released })
    }

    /// A node reports the tokens that it is done with.
    pub fn report_drop_tokens(&mut self, node: &NodeId, drop_tokens: &Vec<DropToken>) -> (released:
        Result<Vec<SharedMemoryId>, DaemonError>)
        requires
            old(self).wf(),
        ensures
            final(self).wf(),
            match old(self)@.connection_error(node@) {
                Some(error) => released == Err::<Vec<SharedMemoryId>, DaemonError>(error) && final(self)@ == old(self)@,
                None => {
                    &&& released matches Ok(released)
                    &&& released@ == old(self)@.ledger.released_by(node@, drop_tokens@)
                    &&& final(self)@ == old(self)@.acknowledge(node@, drop_tokens@)
                },
            },
    {
        let ghost model = self@;
        let at = match self.find(node) {
            Some(i) => i,
            None => {
                return Err(DaemonError::UnknownNode);
            },
        };
        if !self.sessions[at].connected() {
            return Err(DaemonError::ProtocolError);
        }
        let released = self.ledger.acknowledge_tokens(node, drop_tokens);
        let ghost before = self.sessions@;
        let mut session = self.sessions.remove(at);
        session.acknowledge_all(drop_tokens);
        self.sessions.insert(at, session);
        proof {
            assert(self.sessions@ =~= before.update(at as int, session));
            assert(sessions_view(before.update(at as int, session)) =~= sessions_view(
                before,
            ).update(at as int, session@));
            model.ledger.lemma_acknowledge_tokens_wf(node@, drop_tokens@);
            lemma_acknowledge_all_keeps(model.sessions[at as int], drop_tokens@);
        }
        Ok(released)
    }

    /// Closes every input that listens to `output` of `source`.
    fn close_output(&mut self, source: &NodeId, output: &DataId)
        requires
            old(self).wf(),
        ensures
            final(self).wf(),
            final(self)@ == old(self)@.close_output(source@, output@),
    {
        let ghost before = self.sessions@;
        let ghost model = self@;
        let mut rest: Vec<NodeSession> = Vec::new();
        core::mem::swap(&mut self.sessions, &mut rest);
        for session in it: rest
            invariant
                it.seq() == before,
                before.len() == self.nodes.len(),
                self.sessions.len() == it.index(),
                self.nodes == old(self).nodes,
                self.remote == old(self).remote,
                self.working_dir == old(self).working_dir,
                self.communication == old(self).communication,
                self.id == old(self).id,
                self.ledger == old(self).ledger,
                forall|j: int|
                    0 <= j < it.index() ==> (#[trigger] self.sessions[j])@
                        == before[j]@.close_source(
                        self.nodes[j].run_config.inputs@,
                        source@,
                        output@,
                    ),
        {
            let mut session = session;
            session.close_source(
                &self.nodes[self.sessions.len()].run_config.inputs,
                source,
                output,
            );
            self.sessions.push(session);
        }
        proof {
            assert(self@.sessions =~= model.close_output(source@, output@).sessions);
            assert(model.close_outputs(source@, seq![output@]) == model.close_output(
                source@,
                output@,
            )) by {
                assert(seq![output@].drop_last() =~= Seq::<Seq<char>>::empty());
                assert(model.close_outputs(source@, Seq::<Seq<char>>::empty()) == model);
            }
            lemma_close_outputs_keeps(model, source@, seq![output@]);
        }
    }

    /// Closes each of the outputs in turn.
    fn close_each(&mut self, source: &NodeId, outputs: &Vec<DataId>)
        requires
            old(self).wf(),
        ensures
            final(self).wf(),
            final(self)@ == old(self)@.close_outputs(source@, names_of(outputs@)),
    {
        let mut k: usize = 0;
        while k < outputs.len()
            invariant
                k <= outputs.len(),
                self.wf(),
                self@ == old(self)@.close_outputs(
                    source@,
                    names_of(outputs@.subrange(0, k as int)),
                ),
            decreases outputs.len() - k,
        {
            proof {
                let next = names_of(outputs@.subrange(0, k + 1));
                assert(next.drop_last() =~= names_of(outputs@.subrange(0, k as int)));
                assert(next.last() == outputs[k as int]@);
            }
            self.close_output(source, &outputs[k]);
            k += 1;
        }
        assert(outputs@.subrange(0, outputs.len() as int) =~= outputs@);
    }

    /// A node closes some of its outputs: every input that listens to one
    /// of them is closed and its node told so.
    pub fn close_outputs(&mut self, node: &NodeId, outputs: &Vec<DataId>) -> (done: Result<
        (),
        DaemonError,
    >)
        requires
            old(self).wf(),
        ensures
            final(self).wf(),
            match old(self)@.close_error(node@, names_of(outputs@)) {
                Some(error) => done == Err::<(), DaemonError>(error) && final(self)@ == old(self)@,
                None => done == Ok::<(), DaemonError>(()) && final(self)@ == old(
                    self,
                )@.close_outputs(node@, names_of(outputs@)),
            },
    {
        let at = match self.find(node) {
            Some(i) => i,
            None => {
                return Err(DaemonError::UnknownNode);
            },
        };
        if !self.sessions[at].connected() {
            return Err(DaemonError::ProtocolError);
        }
        let mut k: usize = 0;
        while k < outputs.len()
            invariant
                k <= outputs.len(),
                self == old(self),
                self.wf(),
                at < self.nodes.len(),
                at == self@.index_of(node@),
                self@.connection_error(node@) is None,
                forall|j: int|
                    0 <= j < k ==> self.nodes[at as int].run_config.declares(
                        #[trigger] names_of(outputs@)[j],
                    ),
            decreases outputs.len() - k,
        {
            if !self.nodes[at].run_config.declares_output(&outputs[k]) {
                assert(!self.nodes[at as int].run_config.declares(names_of(outputs@)[k as int]));
                return Err(DaemonError::UnknownOutput);
            }
            k += 1;
        }
        self.close_each(node, outputs);
        Ok(())
    }

    /// A node says that it has sent its last output.
    pub fn outputs_done(&mut self, node: &NodeId) -> (done: Result<(), DaemonError>)
        requires
            old(self).wf(),
        ensures
            final(self).wf(),
            match old(self)@.connection_error(node@) {
                Some(error) => done == Err::<(), DaemonError>(error) && final(self)@ == old(self)@,
                None => done == Ok::<(), DaemonError>(()) && final(self)@ == old(
                    self,
                )@.outputs_done(node@),
            },
    {
        let ghost model = self@;
        let at = match self.find(node) {
            Some(i) => i,
            None => {
                return Err(DaemonError::UnknownNode);
            },
        };
        if !self.sessions[at].connected() {
            return Err(DaemonError::ProtocolError);
        }
        let outputs = copy_ids(&self.nodes[at].run_config.outputs);
        self.close_each(node, &outputs);
        proof {
            lemma_close_outputs_keeps(model, node@, names_of(outputs@));
        }
        let ghost before = self.sessions@;
        let mut session = self.sessions.remove(at);
        session.outputs_done();
        self.sessions.insert(at, session);
        proof {
            assert(self.sessions@ =~= before.update(at as int, session));
            assert(sessions_view(before.update(at as int, session)) =~= sessions_view(
                before,
            ).update(at as int, session@));
            assert forall|i: int| 0 <= i < self@.nodes.len() implies (
            #[trigger] self@.sessions[i]).node_id == self@.nodes[i].id@
                && self@.sessions[i].dataflow_id == self@.id by {
                assert(sessions_view(before)[i].node_id == model.nodes[i].id@);
            }
        }
        Ok(())
    }

    /// The connection of a node has ended, or its process has.
    pub fn event_stream_dropped(&mut self, node: &NodeId) -> (dropped: Result<Dropped, DaemonError>)
        requires
            old(self).wf(),
        ensures
            final(self).wf(),
            match old(self)@.drop_error(node@) {
                Some(error) => dropped == Err::<Dropped, DaemonError>(error) && final(self)@ == old(
                    self,
                )@,
                None => {
                    &&& dropped matches Ok(dropped)
                    &&& dropped.early == old(self)@.exits_early(node@)
                    &&& old(self)@.ledger.reports_forced(node@, dropped.forced@)
                    &&& final(self)@ == old(self)@.event_stream_dropped(node@)
                },
            },
    {
        let ghost model = self@;
        let at = match self.find(node) {
            Some(i) => i,
            None => {
                return Err(DaemonError::UnknownNode);
            },
        };
        if self.sessions[at].state() == SessionState::Closed {
            return Err(DaemonError::ProtocolError);
        }
        let early = !self.sessions[at].stop_requested() && self.sessions[at].state()
            != SessionState::Draining;
        let outputs = copy_ids(&self.nodes[at].run_config.outputs);
        self.close_each(node, &outputs);
        proof {
            lemma_close_outputs_keeps(model, node@, names_of(outputs@));
        }
        let forced = self.ledger.force_release(node);
        let ghost before = self.sessions@;
        let mut session = self.sessions.remove(at);
        session.close();
        self.sessions.insert(at, session);
        proof {
            assert(self.sessions@ =~= before.update(at as int, session));
            assert(sessions_view(before.update(at as int, session)) =~= sessions_view(
                before,
            ).update(at as int, session@));
            model.ledger.lemma_force_release_wf(node@);
            assert forall|i: int| 0 <= i < self@.nodes.len() implies (
            #[trigger] self@.sessions[i]).node_id == self@.nodes[i].id@
                && self@.sessions[i].dataflow_id == self@.id by {
                assert(sessions_view(before)[i].node_id == model.nodes[i].id@);
            }
        }
        Ok(Dropped { forced, early })
    }

    /// A node asks to be told when its shared-memory outputs are dropped.
    pub fn subscribe_drop(&mut self, node: &NodeId) -> (done: Result<(), DaemonError>)
        requires
            old(self).wf(),
        ensures
            final(self).wf(),
            match old(self)@.connection_error(node@) {
                Some(error) => done == Err::<(), DaemonError>(error) && final(self)@ == old(self)@,
                None => done == Ok::<(), DaemonError>(()) && final(self)@ == old(
                    self,
                )@.subscribe_drop(node@),
            },
    {
        let at = match self.find(node) {
            Some(i) => i,
            None => {
                return Err(DaemonError::UnknownNode);
            },
        };
        if !self.sessions[at].connected() {
            return Err(DaemonError::ProtocolError);
        }
        let ghost before = self.sessions@;
        let mut session = self.sessions.remove(at);
        session.subscribe_drop();
        self.sessions.insert(at, session);
        proof {
            assert(self.sessions@ =~= before.update(at as int, session));
            assert(sessions_view(before.update(at as int, session)) =~= sessions_view(
                before,
            ).update(at as int, session@));
        }
        Ok(())
    }

    /// A node fetches the tokens of its own outputs that have been dropped
    /// since it last asked. Where there is none the connection has to wait.
    pub fn next_finished_drop_tokens(&mut self, node: &NodeId) -> (events: Result<
        Vec<NodeDropEvent>,
        DaemonError,
    >)
        requires
            old(self).wf(),
        ensures
            final(self).wf(),
            match old(self)@.connection_error(node@) {
                Some(error) => events == Err::<Vec<NodeDropEvent>, DaemonError>(error) && final(self)@ == old(self)@,
                None => {
                    &&& events matches Ok(events)
                    &&& events@ == drop_events(
                        dropped(
                            old(self)@.sessions[old(self)@.index_of(node@)].sent,
                            old(self)@.ledger,
                        ),
                    )
                    &&& final(self)@ == old(self)@.next_finished_drop_tokens(node@)
                },
            },
    {
        let at = match self.find(node) {
            Some(i) => i,
            None => {
                return Err(DaemonError::UnknownNode);
            },
        };
        if !self.sessions[at].connected() {
            return Err(DaemonError::ProtocolError);
        }
        let ghost before = self.sessions@;
        let mut session = self.sessions.remove(at);
        let events = session.take_dropped(&self.ledger);
        self.sessions.insert(at, session);
        proof {
            assert(self.sessions@ =~= before.update(at as int, session));
            assert(sessions_view(before.update(at as int, session)) =~= sessions_view(
                before,
            ).update(at as int, session@));
        }
        Ok(events)
    }

    /// Reserves a shared-memory region of `len` bytes for an output that
    /// the node is about to send.
    pub fn prepare_message(&mut self, node: &NodeId, len: usize) -> (region: Result<
        SharedMemoryId,
        DaemonError,
    >)
        requires
            old(self).wf(),
        ensures
            final(self).wf(),
            match old(self)@.prepare_error(node@) {
                Some(error) => region == Err::<SharedMemoryId, DaemonError>(error) && final(self)@
                    == old(self)@,
                None => region == Ok::<SharedMemoryId, DaemonError>(
                    SharedMemoryId(old(self)@.ledger.next as u64),
                ) && final(self)@ == old(self)@.prepare_message(len as nat),
            },
    {
        let ghost model = self@;
        let at = match self.find(node) {
            Some(i) => i,
            None => {
                return Err(DaemonError::UnknownNode);
            },
        };
        if !self.sessions[at].connected() {
            return Err(DaemonError::ProtocolError);
        }
        proof {
            model.ledger.lemma_allocate_wf(len as nat);
        }
        match self.ledger.allocate(len) {
            Ok(region) => Ok(region),
            Err(error) => Err(DaemonError::Ledger(error)),
        }
    }
}

/// Acknowledging tokens changes the tokens owed and nothing else.
pub proof fn lemma_acknowledge_all_keeps(session: SessionModel, tokens: Seq<DropToken>)
    ensures
        ({
            let after = session.acknowledge_all(tokens);
            &&& after.state == session.state
            &&& after.node_id == session.node_id
            &&& after.dataflow_id == session.dataflow_id
            &&& after.inbox == session.inbox
            &&& after.open_inputs == session.open_inputs
            &&& after.sent == session.sent
            &&& after.stop_requested == session.stop_requested
            &&& after.drop_subscribed == session.drop_subscribed
        }),
    decreases tokens.len(),
{
    if tokens.len() > 0 {
        lemma_acknowledge_all_keeps(session, tokens.drop_last());
    }
}

/// Routing a message changes nobody's name, dataflow or state.
pub proof fn lemma_deliver_keeps(
    model: DataflowModel,
    source: Seq<char>,
    output: Seq<char>,
    metadata: Seq<u8>,
    data: Option<DataView>,
)
    requires
        model.wf(),
    ensures
        (DataflowModel { sessions: model.fan_out(source, output, metadata, data), ..model }).wf(),
        forall|i: int|
            0 <= i < model.sessions.len() ==> (#[trigger] model.fan_out(
                source,
                output,
                metadata,
                data,
            )[i]).state == model.sessions[i].state,
{
    let routed = model.fan_out(source, output, metadata, data);
    assert forall|i: int| 0 <= i < model.sessions.len() implies (#[trigger] routed[i]).state
        == model.sessions[i].state && routed[i].node_id == model.sessions[i].node_id
        && routed[i].dataflow_id == model.sessions[i].dataflow_id by {
        lemma_deliver_session(
            model.sessions[i],
            model.nodes[i].run_config.inputs@,
            source,
            output,
            metadata,
            data,
        );
    }
}

/// Delivering to a session changes its inbox and the tokens it owes, and
/// nothing else.
pub proof fn lemma_deliver_session(
    session: SessionModel,
    inputs: Seq<InputMapping>,
    source: Seq<char>,
    output: Seq<char>,
    metadata: Seq<u8>,
    data: Option<DataView>,
)
    ensures
        ({
            let after = session.deliver(inputs, source, output, metadata, data);
            &&& after.state == session.state
            &&& after.node_id == session.node_id
            &&& after.dataflow_id == session.dataflow_id
            &&& after.open_inputs == session.open_inputs
            &&& after.sent == session.sent
            &&& after.stop_requested == session.stop_requested
            &&& after.drop_subscribed == session.drop_subscribed
            &&& !session.receives(inputs, source, output) ==> after == session
        }),
    decreases inputs.len(),
{
    if inputs.len() > 0 {
        let front = inputs.drop_last();
        lemma_deliver_session(session, front, source, output, metadata, data);
        if session.receives(front, source, output) {
            let k = choose|k: int|
                0 <= k < front.len() && (#[trigger] front[k]).listens_to(source, output)
                    && session.listening(front[k].id@);
            assert(inputs[k] == front[k]);
        }
        if inputs.last().listens_to(source, output) && session.listening(inputs.last().id@) {
            assert(inputs[inputs.len() - 1].listens_to(source, output));
        }
    }
}

} // verus!

//! A daemon: the dataflows that run on its machine, and the answer to each
//! request of a node.

use vstd::prelude::*;
use crate::config::{DataId, NodeId, OperatorId};
use crate::daemon_messages::{
    events_view, payload_view, DaemonCoordinatorReply, DaemonReply, DaemonRequest, DataflowId,
    Metadata, NodeDropEvent, NodeEvent, SharedMemoryId, SpawnDataflowNodes,
};
use crate::dataflow::{
    elsewhere, heard_by, hosted, lemma_acknowledge_all_keeps, lemma_close_outputs_keeps,
    lemma_deliver_keeps, split_by_machine, DaemonError, DataflowModel, Dropped, RunningDataflow,
};
use crate::descriptor::distinct_ids;
use crate::session::{drop_events, dropped, names_of, SessionState};

verus! {

/// What a request of a node has led to.
#[derive(Debug)]
pub struct Handled {
    /// What the node is answered. `None` where the request gets no answer,
    /// and where the answer has to wait: a `NextEvent` or a
    /// `NextFinishedDropTokens` with nothing to hand out is asked again
    /// when there is something.
    pub reply: Option<DaemonReply>,
    /// Why the request was refused, if it was.
    pub error: Option<DaemonError>,
    /// The shared-memory regions that were released.
    pub released: Vec<SharedMemoryId>,
    /// The message is to be forwarded to the daemons of other machines.
    pub forward: bool,
    /// What the end of the connection leaves behind.
    pub dropped: Option<Dropped>,
}

/// The request gets an answer on its connection.
pub open spec fn answered(request: DaemonRequest) -> bool {
    !(request is SendMessage || request is ReportDropTokens)
}

impl DataflowModel {
    /// The error that the request is refused with, if it is.
    pub open spec fn error_of(self, node: Seq<char>, request: DaemonRequest) -> Option<DaemonError> {
        match request {
            DaemonRequest::Register { node_id, .. } => self.register_error(node_id@),
            DaemonRequest::Subscribe => self.subscribe_error(node),
            DaemonRequest::SendMessage { output_id, data, .. } => self.send_error(
                node,
                output_id@,
                payload_view(data),
            ),
            DaemonRequest::CloseOutputs(outputs) => self.close_error(node, names_of(outputs@)),
            DaemonRequest::OutputsDone => self.connection_error(node),
            DaemonRequest::NextEvent { .. } => self.fetch_error(node),
            DaemonRequest::ReportDropTokens { .. } => self.connection_error(node),
            DaemonRequest::SubscribeDrop => self.connection_error(node),
            DaemonRequest::NextFinishedDropTokens => self.connection_error(node),
            DaemonRequest::EventStreamDropped => self.drop_error(node),
        }
    }

    /// The dataflow after the request. A request that is refused changes
    /// nothing.
    pub open spec fn handle(self, node: Seq<char>, request: DaemonRequest) -> DataflowModel {
        if self.error_of(node, request) is Some {
            self
        } else {
            match request {
                DaemonRequest::Register { node_id, .. } => self.register(node_id@),
                DaemonRequest::Subscribe => self.subscribe(node),
                DaemonRequest::SendMessage { output_id, metadata, data } => self.send_message(
                    node,
                    output_id@,
                    metadata@,
                    payload_view(data),
                ),
                DaemonRequest::CloseOutputs(outputs) => self.close_outputs(
                    node,
                    names_of(outputs@),
                ),
                DaemonRequest::OutputsDone => self.outputs_done(node),
                DaemonRequest::NextEvent { drop_tokens } => self.next_event(node, drop_tokens@),
                DaemonRequest::ReportDropTokens { drop_tokens } => self.acknowledge(
                    node,
                    drop_tokens@,
                ),
                DaemonRequest::SubscribeDrop => self.subscribe_drop(node),
                DaemonRequest::NextFinishedDropTokens => self.next_finished_drop_tokens(node),
                DaemonRequest::EventStreamDropped => self.event_stream_dropped(node),
            }
        }
    }

    /// Whether `reply` is the answer that the request gets: none for a
    /// request that is sent and forgotten; the error in words for one that
    /// is refused; the events that wait for `NextEvent`, the dropped
    /// outputs for `NextFinishedDropTokens`, and none yet where there is
    /// none to hand out; a plain success for every other.
    pub open spec fn answers(self, node: Seq<char>, request: DaemonRequest, reply: Option<DaemonReply>)
        -> bool {
        if !answered(request) {
            reply is None
        } else {
            match self.error_of(node, request) {
                Some(error) => reply matches Some(DaemonReply::Result(Err(text))) && text@
                    == error.text(),
                None => match request {
                    DaemonRequest::NextEvent { .. } => {
                        let inbox = self.sessions[self.index_of(node)].inbox;
                        if inbox.len() == 0 {
                            reply is None
                        } else {
                            reply matches Some(DaemonReply::NextEvents(events)) && events_view(
                                events@,
                            ) == inbox
                        }
                    },
                    DaemonRequest::NextFinishedDropTokens => {
                        let finished = drop_events(
                            dropped(self.sessions[self.index_of(node)].sent, self.ledger),
                        );
                        if finished.len() == 0 {
                            reply is None
                        } else {
                            reply matches Some(DaemonReply::NextDropEvents(events)) && events@
                                == finished
                        }
                    },
                    _ => reply matches Some(DaemonReply::Result(Ok(_))),
                },
            }
        }
    }

    /// The regions that the request releases, in order.
    pub open spec fn releases(self, node: Seq<char>, request: DaemonRequest) -> Seq<SharedMemoryId> {
        if self.error_of(node, request) is Some {
            Seq::empty()
        } else {
            match request {
                DaemonRequest::NextEvent { drop_tokens } => self.ledger.released_by(
                    node,
                    drop_tokens@,
                ),
                DaemonRequest::ReportDropTokens { drop_tokens } => self.ledger.released_by(
                    node,
                    drop_tokens@,
                ),
                DaemonRequest::SendMessage { output_id, data, .. } => match self.stranded(
                    node,
                    output_id@,
                    payload_view(data),
                ) {
                    Some(region) => seq![region],
                    None => Seq::empty(),
                },
                _ => Seq::empty(),
            }
        }
    }

    /// The request is a message that nodes on other machines listen to.
    pub open spec fn forwards(self, node: Seq<char>, request: DaemonRequest) -> bool {
        self.error_of(node, request) is None && (request matches DaemonRequest::SendMessage {
            output_id,
            ..
        } && heard_by(self.remote, node, output_id@))
    }
}

/// The answer that tells of a success or of an error in words.
fn result_reply(done: Result<(), DaemonError>) -> (reply: DaemonReply)
    ensures
        match done {
            Ok(_) => reply matches DaemonReply::Result(Ok(_)),
            Err(error) => reply matches DaemonReply::Result(Err(text)) && text@ == error.text(),
        },
{
    match done {
        Ok(_) => DaemonReply::Result(Ok(())),
        Err(error) => DaemonReply::Result(Err(error.message())),
    }
}

impl RunningDataflow {
    /// Carries out one request of the node `node`. For `Register`, the
    /// node is the one that the request names.
    pub fn handle(&mut self, node: &NodeId, request: DaemonRequest) -> (handled: Handled)
        requires
            old(self).wf(),
        ensures
            final(self).wf(),
            final(self)@ == old(self)@.handle(node@, request),
            handled.error == old(self)@.error_of(node@, request),
            old(self)@.answers(node@, request, handled.reply),
            handled.released@ == old(self)@.releases(node@, request),
            handled.forward == old(self)@.forwards(node@, request),
            match handled.dropped {
                Some(gone) => request is EventStreamDropped && old(self)@.drop_error(node@) is None
                    && gone.early == old(self)@.exits_early(node@) && old(
                    self,
                )@.ledger.reports_forced(node@, gone.forced@),
                None => !(request is EventStreamDropped) || old(self)@.drop_error(node@) is Some,
            },
    {
        match request {
            DaemonRequest::Register { dataflow_id, node_id, dora_version } => {
                let done = self.register(&node_id);
                let error = match done {
                    Ok(_) => None,
                    Err(error) => Some(error),
                };
                Handled {
                    reply: Some(result_reply(done)),
                    error,
                    released: Vec::new(),
                    forward: false,
                    dropped: None,
                }
            },
            DaemonRequest::Subscribe => {
                let done = self.subscribe(node);
                let error = match done {
                    Ok(_) => None,
                    Err(error) => Some(error),
                };
                Handled {
                    reply: Some(result_reply(done)),
                    error,
                    released: Vec::new(),
                    forward: false,
                    dropped: None,
                }
            },
            DaemonRequest::SendMessage { output_id, metadata, data } => {
                match self.send_message(node, &output_id, &metadata, &data) {
                    Ok(outcome) => {
                        let mut released: Vec<SharedMemoryId> = Vec::new();
                        if let Some(region) = outcome.released {
                            released.push(region);
                        }
                        Handled {
                            reply: None,
                            error: None,
                            released,
                            forward: outcome.forward,
                            dropped: None,
                        }
                    },
                    Err(error) => Handled {
                        reply: None,
                        error: Some(error),
                        released: Vec::new(),
                        forward: false,
                        dropped: None,
                    },
                }
            },
            DaemonRequest::CloseOutputs(outputs) => {
                let done = self.close_outputs(node, &outputs);
                let error = match done {
                    Ok(_) => None,
                    Err(error) => Some(error),
                };
                Handled {
                    reply: Some(result_reply(done)),
                    error,
                    released: Vec::new(),
                    forward: false,
                    dropped: None,
                }
            },
            DaemonRequest::OutputsDone => {
                let done = self.outputs_done(node);
                let error = match done {
                    Ok(_) => None,
                    Err(error) => Some(error),
                };
                Handled {
                    reply: Some(result_reply(done)),
                    error,
                    released: Vec::new(),
                    forward: false,
                    dropped: None,
                }
            },
            DaemonRequest::NextEvent { drop_tokens } => {
                match self.next_event(node, &drop_tokens) {
                    Ok(fetched) => {
                        let reply = if fetched.events.len() == 0 {
                            None
                        } else {
                            Some(DaemonReply::NextEvents(fetched.events))
                        };
                        Handled {
                            reply,
                            error: None,
                            released: fetched.released,
                            forward: false,
                            dropped: None,
                        }
                    },
                    Err(error) => Handled {
                        reply: Some(result_reply(Err(error))),
                        error: Some(error),
                        released: Vec::new(),
                        forward: false,
                        dropped: None,
                    },
                }
            },
            DaemonRequest::ReportDropTokens { drop_tokens } => {
                match self.report_drop_tokens(node, &drop_tokens) {
                    Ok(released) => Handled {
                        reply: None,
                        error: None,
                        released,
                        forward: false,
                        dropped: None,
                    },
                    Err(error) => Handled {
                        reply: None,
                        error: Some(error),
                        released: Vec::new(),
                        forward: false,
                        dropped: None,
                    },
                }
            },
            DaemonRequest::SubscribeDrop => {
                let done = self.subscribe_drop(node);
                let error = match done {
                    Ok(_) => None,
                    Err(error) => Some(error),
                };
                Handled {
                    reply: Some(result_reply(done)),
                    error,
                    released: Vec::new(),
                    forward: false,
                    dropped: None,
                }
            },
            DaemonRequest::NextFinishedDropTokens => {
                match self.next_finished_drop_tokens(node) {
                    Ok(events) => {
                        let reply = if events.len() == 0 {
                            None
                        } else {
                            Some(DaemonReply::NextDropEvents(events))
                        };
                        Handled {
                            reply,
                            error: None,
                            released: Vec::new(),
                            forward: false,
                            dropped: None,
                        }
                    },
                    Err(error) => Handled {
                        reply: Some(result_reply(Err(error))),
                        error: Some(error),
                        released: Vec::new(),
                        forward: false,
                        dropped: None,
                    },
                }
            },
            DaemonRequest::EventStreamDropped => {
                match self.event_stream_dropped(node) {
                    Ok(gone) => Handled {
                        reply: Some(result_reply(Ok(()))),
                        error: None,
                        released: Vec::new(),
                        forward: false,
                        dropped: Some(gone),
                    },
                    Err(error) => Handled {
                        reply: Some(result_reply(Err(error))),
                        error: Some(error),
                        released: Vec::new(),
                        forward: false,
                        dropped: None,
                    },
                }
            },
        }
    }
}

/// A daemon as a mathematical value.
pub struct DaemonModel {
    /// The version of the protocol that the daemon speaks.
    pub version: Seq<char>,
    /// The name of the daemon's machine.
    pub machine: Seq<char>,
    pub dataflows: Seq<DataflowModel>,
}

impl DaemonModel {
    pub open spec fn wf(self) -> bool {
        &&& forall|i: int| 0 <= i < self.dataflows.len() ==> (#[trigger] self.dataflows[i]).wf()
        &&& forall|i: int, j: int|
            0 <= i < j < self.dataflows.len() ==> (#[trigger] self.dataflows[i]).id != (
            #[trigger] self.dataflows[j]).id
    }

    /// A dataflow of this identifier runs here.
    pub open spec fn runs(self, id: DataflowId) -> bool {
        exists|i: int| 0 <= i < self.dataflows.len() && (#[trigger] self.dataflows[i]).id == id
    }

    pub open spec fn index_of(self, id: DataflowId) -> int {
        choose|i: int| 0 <= i < self.dataflows.len() && (#[trigger] self.dataflows[i]).id == id
    }

    /// The error that `spawn` answers with, if any.
    pub open spec fn spawn_error(self, command: SpawnDataflowNodes) -> Option<DaemonError> {
        if self.runs(command.dataflow_id) {
            Some(DaemonError::DuplicateDataflow)
        } else if !distinct_ids(hosted(command.nodes@, self.machine)) {
            Some(DaemonError::DuplicateNode)
        } else {
            None
        }
    }

    /// The error that a request is refused with before it reaches its
    /// dataflow: a node that registers has to speak the daemon's version,
    /// and the dataflow has to run here.
    pub open spec fn gate_error(self, id: DataflowId, request: DaemonRequest) -> Option<DaemonError> {
        if (request matches DaemonRequest::Register { dora_version, .. } && dora_version@
            != self.version) {
            Some(DaemonError::VersionMismatch)
        } else if !self.runs(id) {
            Some(DaemonError::UnknownDataflow)
        } else {
            None
        }
    }

    /// The error that the request is refused with, if it is.
    pub open spec fn error_of(self, id: DataflowId, node: Seq<char>, request: DaemonRequest) -> Option<
        DaemonError,
    > {
        match self.gate_error(id, request) {
            Some(error) => Some(error),
            None => self.dataflows[self.index_of(id)].error_of(node, request),
        }
    }

    /// The daemon after the request.
    pub open spec fn handle(self, id: DataflowId, node: Seq<char>, request: DaemonRequest)
        -> DaemonModel {
        if self.gate_error(id, request) is Some {
            self
        } else {
            let i = self.index_of(id);
            DaemonModel {
                dataflows: self.dataflows.update(i, self.dataflows[i].handle(node, request)),
                ..self
            }
        }
    }
}

/// The dataflows as mathematical values, in order.
pub open spec fn dataflows_view(list: Seq<RunningDataflow>) -> Seq<DataflowModel> {
    list.map_values(|dataflow: RunningDataflow| dataflow@)
}

/// Every dataflow of the list is consistent.
pub open spec fn all_wf(list: Seq<RunningDataflow>) -> bool {
    forall|i: int| 0 <= i < list.len() ==> (#[trigger] list[i]).wf()
}

/// The dataflows that run on one machine.
pub struct Daemon {
    version: String,
    machine: String,
    dataflows: Vec<RunningDataflow>,
}

impl View for Daemon {
    type V = DaemonModel;

    closed spec fn view(&self) -> DaemonModel {
        DaemonModel {
            version: self.version@,
            machine: self.machine@,
            dataflows: dataflows_view(self.dataflows@),
        }
    }
}

impl Daemon {
    /// The state is consistent.
    pub closed spec fn wf(&self) -> bool {
        &&& self@.wf()
        &&& all_wf(self.dataflows@)
    }

    /// A daemon on the machine of this name, which speaks this version of
    /// the protocol and runs nothing yet.
    pub fn new(version: String, machine: String) -> (daemon: Daemon)
        ensures
            daemon.wf(),
            daemon@ == (DaemonModel {
                version: version@,
                machine: machine@,
                dataflows: Seq::<DataflowModel>::empty(),
            }),
    {
        let daemon = Daemon { version, machine, dataflows: Vec::new() };
        assert(daemon@.dataflows =~= Seq::empty());
        daemon
    }

    fn find(&self, id: DataflowId) -> (at: Option<usize>)
        requires
            self.wf(),
        ensures
            match at {
                Some(i) => self@.runs(id) && i == self@.index_of(id) && i < self.dataflows.len(),
                None => !self@.runs(id),
            },
    {
        let mut i: usize = 0;
        while i < self.dataflows.len()
            invariant
                self.wf(),
                i <= self.dataflows.len(),
                forall|j: int| 0 <= j < i ==> (#[trigger] self@.dataflows[j]).id != id,
            decreases self.dataflows.len() - i,
        {
            if self.dataflows[i].id() == id {
                proof {
                    assert(self@.dataflows[i as int].id == id);
                    let k = self@.index_of(id);
                    if k < i {
                        assert(self@.dataflows[k].id != self@.dataflows[i as int].id);
                    } else if i < k {
                        assert(self@.dataflows[i as int].id != self@.dataflows[k].id);
                    }
                }
                return Some(i);
            }
            i += 1;
        }
        None
    }

    /// How many dataflows run here.
    pub fn dataflow_count(&self) -> (count: usize)
        ensures
            count == self@.dataflows.len(),
    {
        self.dataflows.len()
    }

    /// The coordinator has sent the nodes of a dataflow. Those that are
    /// placed on this machine get a session each; the others are kept to
    /// know which outputs are listened to elsewhere.
    pub fn spawn(&mut self, command: SpawnDataflowNodes) -> (done: Result<(), DaemonError>)
        requires
            old(self).wf(),
        ensures
            final(self).wf(),
            final(self)@.version == old(self)@.version,
            final(self)@.machine == old(self)@.machine,
            match old(self)@.spawn_error(command) {
                Some(error) => done == Err::<(), DaemonError>(error) && final(self)@ == old(self)@,
                None => {
                    &&& done is Ok
                    &&& final(self)@.dataflows.len() == old(self)@.dataflows.len() + 1
                    &&& final(self)@.dataflows.drop_last() == old(self)@.dataflows
                    &&& final(self)@.dataflows.last().id == command.dataflow_id
                    &&& final(self)@.dataflows.last().working_dir == command.working_dir
                    &&& final(self)@.dataflows.last().communication
                        == command.daemon_communication
                    &&& final(self)@.dataflows.last().nodes == hosted(
                        command.nodes@,
                        old(self)@.machine,
                    )
                    &&& final(self)@.dataflows.last().remote == elsewhere(
                        command.nodes@,
                        old(self)@.machine,
                    )
                },
            },
    {
        if self.find(command.dataflow_id).is_some() {
            return Err(DaemonError::DuplicateDataflow);
        }
        let id = command.dataflow_id;
        let (here, there) = split_by_machine(command.nodes, &self.machine);
        let dataflow = match RunningDataflow::new(
            id,
            command.working_dir,
            command.daemon_communication,
            here,
            there,
        ) {
            Ok(dataflow) => dataflow,
            Err(error) => {
                return Err(error);
            },
        };
        let ghost before = self.dataflows@;
        self.dataflows.push(dataflow);
        proof {
            dataflow.lemma_model_wf();
            assert(dataflows_view(before.push(dataflow)) =~= dataflows_view(before).push(dataflow@));
            assert(self@.dataflows.drop_last() =~= old(self)@.dataflows);
            assert forall|i: int| 0 <= i < self@.dataflows.len() implies (
            #[trigger] self@.dataflows[i]).wf() by {
                if i < before.len() {
                    assert(old(self)@.dataflows[i].wf());
                }
            }
            assert forall|i: int, j: int| 0 <= i < j < self@.dataflows.len() implies (
            #[trigger] self@.dataflows[i]).id != (#[trigger] self@.dataflows[j]).id by {
                if j < before.len() {
                    assert(old(self)@.dataflows[i].id != old(self)@.dataflows[j].id);
                } else {
                    assert(old(self)@.dataflows[i].id != id);
                }
            }
            assert forall|i: int| 0 <= i < self.dataflows@.len() implies (
            #[trigger] self.dataflows@[i]).wf() by {
                if i < before.len() {
                    assert(before[i].wf());
                }
            }
        }
        Ok(())
    }

    /// Carries out one request of the node `node` of the dataflow `id`.
    /// For `Register`, the node is the one that the request names.
    pub fn handle(&mut self, id: DataflowId, node: &NodeId, request: DaemonRequest) -> (handled:
        Handled)
        requires
            old(self).wf(),
        ensures
            final(self).wf(),
            final(self)@ == old(self)@.handle(id, node@, request),
            handled.error == old(self)@.error_of(id, node@, request),
            match old(self)@.gate_error(id, request) {
                Some(error) => {
                    &&& handled.released@.len() == 0
                    &&& !handled.forward
                    &&& handled.dropped is None
                    &&& if answered(request) {
                        handled.reply matches Some(DaemonReply::Result(Err(text))) && text@
                            == error.text()
                    } else {
                        handled.reply is None
                    }
                },
                None => {
                    let dataflow = old(self)@.dataflows[old(self)@.index_of(id)];
                    &&& dataflow.answers(node@, request, handled.reply)
                    &&& handled.released@ == dataflow.releases(node@, request)
                    &&& handled.forward == dataflow.forwards(node@, request)
                    &&& match handled.dropped {
                        Some(gone) => request is EventStreamDropped && dataflow.drop_error(node@)
                            is None && gone.early == dataflow.exits_early(node@)
                            && dataflow.ledger.reports_forced(node@, gone.forced@),
                        None => !(request is EventStreamDropped) || dataflow.drop_error(node@)
                            is Some,
                    }
                },
            },
    {
        let version_differs = match &request {
            DaemonRequest::Register { dora_version, .. } => *dora_version != self.version,
            _ => false,
        };
        let refused = if version_differs {
            Some(DaemonError::VersionMismatch)
        } else {
            None
        };
        let at = match refused {
            Some(_) => None,
            None => self.find(id),
        };
        let at = match at {
            Some(i) => i,
            None => {
                let error = match refused {
                    Some(error) => error,
                    None => DaemonError::UnknownDataflow,
                };
                let reply = if request.expects_tcp_reply() {
                    Some(result_reply(Err(error)))
                } else {
                    None
                };
                return Handled {
                    reply,
                    error: Some(error),
                    released: Vec::new(),
                    forward: false,
                    dropped: None,
                };
            },
        };
        let ghost model = self@;
        let ghost before = self.dataflows@;
        assert(before[at as int].wf());
        assert(model.dataflows[at as int] == before[at as int]@);
        let mut dataflow = self.dataflows.remove(at);
        let handled = dataflow.handle(node, request);
        self.dataflows.insert(at, dataflow);
        proof {
            dataflow.lemma_model_wf();
            lemma_handle_keeps_id(model.dataflows[at as int], node@, request);
            assert(self.dataflows@ =~= before.update(at as int, dataflow));
            assert(dataflows_view(before.update(at as int, dataflow)) =~= dataflows_view(
                before,
            ).update(at as int, dataflow@));
            assert forall|i: int| 0 <= i < self@.dataflows.len() implies (
            #[trigger] self@.dataflows[i]).wf() && self@.dataflows[i].id
                == model.dataflows[i].id by {
                if i != at {
                    assert(model.dataflows[i].wf());
                }
            }
            assert forall|i: int| 0 <= i < self.dataflows@.len() implies (
            #[trigger] self.dataflows@[i]).wf() by {
                if i != at {
                    assert(before[i].wf());
                }
            }
        }
        handled
    }

    /// An output that was sent on another machine arrives through the
    /// coordinator, for the dataflow `id`.
    pub fn deliver_output(
        &mut self,
        id: DataflowId,
        source: &NodeId,
        output: &DataId,
        metadata: &Metadata,
        data: Option<Vec<u8>>,
    ) -> (done: Result<(), DaemonError>)
        requires
            old(self).wf(),
        ensures
            final(self).wf(),
            final(self)@.version == old(self)@.version,
            final(self)@.machine == old(self)@.machine,
            if old(self)@.runs(id) {
                done is Ok && final(self)@.dataflows == old(self)@.dataflows.update(
                    old(self)@.index_of(id),
                    old(self)@.dataflows[old(self)@.index_of(id)].deliver_output(
                        source@,
                        output@,
                        metadata@,
                        match data {
                            Some(bytes) => Some(bytes@),
                            None => None,
                        },
                    ),
                )
            } else {
                done == Err::<(), DaemonError>(DaemonError::UnknownDataflow) && final(self)@
                    == old(self)@
            },
    {
        let at = match self.find(id) {
            Some(i) => i,
            None => {
                return Err(DaemonError::UnknownDataflow);
            },
        };
        let ghost model = self@;
        let ghost before = self.dataflows@;
        assert(before[at as int].wf());
        assert(model.dataflows[at as int] == before[at as int]@);
        let mut dataflow = self.dataflows.remove(at);
        dataflow.deliver_output(source, output, metadata, data);
        self.dataflows.insert(at, dataflow);
        proof {
            dataflow.lemma_model_wf();
            assert(self.dataflows@ =~= before.update(at as int, dataflow));
            assert(dataflows_view(before.update(at as int, dataflow)) =~= dataflows_view(
                before,
            ).update(at as int, dataflow@));
            assert forall|i: int| 0 <= i < self@.dataflows.len() implies (
            #[trigger] self@.dataflows[i]).wf() && self@.dataflows[i].id
                == model.dataflows[i].id by {
                if i != at {
                    assert(model.dataflows[i].wf());
                }
            }
            assert forall|i: int| 0 <= i < self.dataflows@.len() implies (
            #[trigger] self.dataflows@[i]).wf() by {
                if i != at {
                    assert(before[i].wf());
                }
            }
        }
        Ok(())
    }

    /// The coordinator asks for an operator of a node to be loaded anew.
    /// The answer is a success if the node is told so, else the error in
    /// words.
    pub fn reload(&mut self, id: DataflowId, node: &NodeId, operator_id: Option<OperatorId>) -> (reply:
        DaemonCoordinatorReply)
        requires
            old(self).wf(),
        ensures
            final(self).wf(),
            final(self)@.version == old(self)@.version,
            final(self)@.machine == old(self)@.machine,
            if !old(self)@.runs(id) {
                &&& final(self)@ == old(self)@
                &&& reply matches DaemonCoordinatorReply::ReloadResult(Err(text))
                &&& text@ == DaemonError::UnknownDataflow.text()
            } else {
                let dataflow = old(self)@.dataflows[old(self)@.index_of(id)];
                match dataflow.connection_error(node@) {
                    Some(error) => {
                        &&& final(self)@ == old(self)@
                        &&& reply matches DaemonCoordinatorReply::ReloadResult(Err(text))
                        &&& text@ == error.text()
                    },
                    None => {
                        &&& reply matches DaemonCoordinatorReply::ReloadResult(Ok(_))
                        &&& final(self)@.dataflows == old(self)@.dataflows.update(
                            old(self)@.index_of(id),
                            dataflow.reload(
                                node@,
                                match operator_id {
                                    Some(operator) => Some(operator@),
                                    None => None,
                                },
                            ),
                        )
                    },
                }
            },
    {
        let at = match self.find(id) {
            Some(i) => i,
            None => {
                return DaemonCoordinatorReply::ReloadResult(
                    Err(DaemonError::UnknownDataflow.message()),
                );
            },
        };
        let ghost model = self@;
        let ghost before = self.dataflows@;
        assert(before[at as int].wf());
        assert(model.dataflows[at as int] == before[at as int]@);
        let mut dataflow = self.dataflows.remove(at);
        let done = dataflow.reload(node, operator_id);
        self.dataflows.insert(at, dataflow);
        proof {
            dataflow.lemma_model_wf();
            assert(self.dataflows@ =~= before.update(at as int, dataflow));
            assert(dataflows_view(before.update(at as int, dataflow)) =~= dataflows_view(
                before,
            ).update(at as int, dataflow@));
            assert forall|i: int| 0 <= i < self@.dataflows.len() implies (
            #[trigger] self@.dataflows[i]).wf() && self@.dataflows[i].id
                == model.dataflows[i].id by {
                if i != at {
                    assert(model.dataflows[i].wf());
                }
            }
            assert forall|i: int| 0 <= i < self.dataflows@.len() implies (
            #[trigger] self.dataflows@[i]).wf() by {
                if i != at {
                    assert(before[i].wf());
                }
            }
            if done is Err {
                assert(self@.dataflows =~= model.dataflows);
            }
        }
        match done {
            Ok(_) => DaemonCoordinatorReply::ReloadResult(Ok(())),
            Err(error) => DaemonCoordinatorReply::ReloadResult(Err(error.message())),
        }
    }

    /// Reserves a shared-memory region of `len` bytes for an output that a
    /// node of the dataflow `id` is about to send.
    pub fn prepare_message(&mut self, id: DataflowId, node: &NodeId, len: usize) -> (region: Result<
        SharedMemoryId,
        DaemonError,
    >)
        requires
            old(self).wf(),
        ensures
            final(self).wf(),
            final(self)@.version == old(self)@.version,
            final(self)@.machine == old(self)@.machine,
            if !old(self)@.runs(id) {
                region == Err::<SharedMemoryId, DaemonError>(DaemonError::UnknownDataflow)
                    && final(self)@ == old(self)@
            } else {
                let dataflow = old(self)@.dataflows[old(self)@.index_of(id)];
                match dataflow.prepare_error(node@) {
                    Some(error) => region == Err::<SharedMemoryId, DaemonError>(error) && final(self)@ == old(self)@,
                    None => region == Ok::<SharedMemoryId, DaemonError>(
                        SharedMemoryId(dataflow.ledger.next as u64),
                    ) && final(self)@.dataflows == old(self)@.dataflows.update(
                        old(self)@.index_of(id),
                        dataflow.prepare_message(len as nat),
                    ),
                }
            },
    {
        let at = match self.find(id) {
            Some(i) => i,
            None => {
                return Err(DaemonError::UnknownDataflow);
            },
        };
        let ghost model = self@;
        let ghost before = self.dataflows@;
        assert(before[at as int].wf());
        assert(model.dataflows[at as int] == before[at as int]@);
        let mut dataflow = self.dataflows.remove(at);
        let region = dataflow.prepare_message(node, len);
        self.dataflows.insert(at, dataflow);
        proof {
            dataflow.lemma_model_wf();
            assert(self.dataflows@ =~= before.update(at as int, dataflow));
            assert(dataflows_view(before.update(at as int, dataflow)) =~= dataflows_view(
                before,
            ).update(at as int, dataflow@));
            assert forall|i: int| 0 <= i < self@.dataflows.len() implies (
            #[trigger] self@.dataflows[i]).wf() && self@.dataflows[i].id
                == model.dataflows[i].id by {
                if i != at {
                    assert(model.dataflows[i].wf());
                }
            }
            assert forall|i: int| 0 <= i < self.dataflows@.len() implies (
            #[trigger] self.dataflows@[i]).wf() by {
                if i != at {
                    assert(before[i].wf());
                }
            }
            if region is Err {
                assert(self@.dataflows =~= model.dataflows);
            }
        }
        region
    }

    /// Forgets a dataflow that is over, and says whether there was one.
    pub fn remove(&mut self, id: DataflowId) -> (found: bool)
        requires
            old(self).wf(),
        ensures
            final(self).wf(),
            final(self)@.version == old(self)@.version,
            final(self)@.machine == old(self)@.machine,
            found == old(self)@.runs(id),
            final(self)@.dataflows == if found {
                old(self)@.dataflows.remove(old(self)@.index_of(id))
            } else {
                old(self)@.dataflows
            },
    {
        let at = match self.find(id) {
            Some(i) => i,
            None => {
                return false;
            },
        };
        let ghost model = self@;
        let ghost before = self.dataflows@;
        let _ = self.dataflows.remove(at);
        proof {
            assert(dataflows_view(before.remove(at as int)) =~= dataflows_view(before).remove(
                at as int,
            ));
            assert forall|i: int| 0 <= i < self@.dataflows.len() implies #[trigger] self@.dataflows[i]
                == model.dataflows[if i < at {
                i
            } else {
                i + 1
            }] by {}
            assert forall|i: int| 0 <= i < self@.dataflows.len() implies (
            #[trigger] self@.dataflows[i]).wf() by {
                let i0 = if i < at { i } else { i + 1 };
                assert(model.dataflows[i0].wf());
            }
            assert forall|i: int, j: int| 0 <= i < j < self@.dataflows.len() implies (
            #[trigger] self@.dataflows[i]).id != (#[trigger] self@.dataflows[j]).id by {
                let i0 = if i < at { i } else { i + 1 };
                let j0 = if j < at { j } else { j + 1 };
                assert(model.dataflows[i0].id != model.dataflows[j0].id);
            }
            assert forall|i: int| 0 <= i < self.dataflows@.len() implies (
            #[trigger] self.dataflows@[i]).wf() by {
                let i0 = if i < at { i } else { i + 1 };
                assert(before[i0].wf());
            }
        }
        true
    }

    /// Tells every node of the dataflow to stop.
    pub fn stop_dataflow(&mut self, id: DataflowId) -> (done: Result<(), DaemonError>)
        requires
            old(self).wf(),
        ensures
            final(self).wf(),
            final(self)@.version == old(self)@.version,
            final(self)@.machine == old(self)@.machine,
            if old(self)@.runs(id) {
                done is Ok && final(self)@.dataflows == old(self)@.dataflows.update(
                    old(self)@.index_of(id),
                    old(self)@.dataflows[old(self)@.index_of(id)].stop_all(),
                )
            } else {
                done == Err::<(), DaemonError>(DaemonError::UnknownDataflow) && final(self)@
                    == old(self)@
            },
    {
        let at = match self.find(id) {
            Some(i) => i,
            None => {
                return Err(DaemonError::UnknownDataflow);
            },
        };
        let ghost model = self@;
        let ghost before = self.dataflows@;
        assert(before[at as int].wf());
        assert(model.dataflows[at as int] == before[at as int]@);
        let mut dataflow = self.dataflows.remove(at);
        dataflow.stop_all();
        self.dataflows.insert(at, dataflow);
        proof {
            dataflow.lemma_model_wf();
            assert(self.dataflows@ =~= before.update(at as int, dataflow));
            assert(dataflows_view(before.update(at as int, dataflow)) =~= dataflows_view(
                before,
            ).update(at as int, dataflow@));
            assert forall|i: int| 0 <= i < self@.dataflows.len() implies (
            #[trigger] self@.dataflows[i]).wf() && self@.dataflows[i].id
                == model.dataflows[i].id by {
                if i != at {
                    assert(model.dataflows[i].wf());
                }
            }
            assert forall|i: int| 0 <= i < self.dataflows@.len() implies (
            #[trigger] self.dataflows@[i]).wf() by {
                if i != at {
                    assert(before[i].wf());
                }
            }
        }
        Ok(())
    }
}

/// No request changes the identifier of its dataflow.
pub proof fn lemma_handle_keeps_id(model: DataflowModel, node: Seq<char>, request: DaemonRequest)
    requires
        model.wf(),
    ensures
        model.handle(node, request).id == model.id,
{
    match request {
        DaemonRequest::CloseOutputs(outputs) => {
            lemma_close_outputs_keeps(model, node, names_of(outputs@));
        },
        DaemonRequest::OutputsDone => {
            lemma_close_outputs_keeps(
                model,
                node,
                names_of(model.nodes[model.index_of(node)].run_config.outputs@),
            );
        },
        _ => {},
    }
}

/// How far a session has come in its life.
pub open spec fn rank(state: SessionState) -> nat {
    match state {
        SessionState::Unregistered => 0,
        SessionState::Registered => 1,
        SessionState::Subscribed => 2,
        SessionState::Draining => 3,
        SessionState::Closed => 4,
    }
}

/// A session only ever moves forward: from unregistered to registered, to
/// subscribed, to draining, to closed. No request of any node takes the
/// session of any node back.
pub proof fn lemma_lifecycle_moves_forward(
    model: DataflowModel,
    node: Seq<char>,
    request: DaemonRequest,
    i: int,
)
    requires
        model.wf(),
        0 <= i < model.sessions.len(),
    ensures
        model.handle(node, request).sessions.len() == model.sessions.len(),
        rank(model.handle(node, request).sessions[i].state) >= rank(model.sessions[i].state),
{
    if model.error_of(node, request) is None {
        let at = model.index_of(node);
        match request {
            DaemonRequest::SendMessage { output_id, metadata, data } => {
                lemma_deliver_keeps(model, node, output_id@, metadata@, payload_view(data));
            },
            DaemonRequest::CloseOutputs(outputs) => {
                lemma_close_outputs_keeps(model, node, names_of(outputs@));
            },
            DaemonRequest::OutputsDone => {
                lemma_close_outputs_keeps(
                    model,
                    node,
                    names_of(model.nodes[at].run_config.outputs@),
                );
            },
            DaemonRequest::EventStreamDropped => {
                lemma_close_outputs_keeps(
                    model,
                    node,
                    names_of(model.nodes[at].run_config.outputs@),
                );
            },
            DaemonRequest::NextEvent { drop_tokens } => {
                lemma_acknowledge_all_keeps(model.sessions[at], drop_tokens@);
            },
            DaemonRequest::ReportDropTokens { drop_tokens } => {
                lemma_acknowledge_all_keeps(model.sessions[at], drop_tokens@);
            },
            _ => {},
        }
    }
}

} // verus!

//! The coordinator's control plane: which daemons are connected, which
//! dataflows run on which of them, and what a control request or a daemon's
//! answer sets in motion.

use vstd::prelude::*;
use crate::daemon_messages::{DaemonCommunicationConfig, SpawnDataflowNodes};
use crate::descriptor::ResolvedNode;
use crate::session::{lemma_strike_contains, strike};
use crate::topics::{
    DataflowId, DataflowList, DataflowListEntry, DataflowResult, DataflowStatus,
    StartDataflowResult,
};
use crate::tracker::{
    has_name, lemma_strike_distinct, names, strike_name, CompletionModel, CompletionTracker,
    StartModel, StartTracker,
};
use crate::trusted::{
    decimal, decimal_text, hyphenated, is_random_uuid, push_str, random_uuid, uuid_text,
};

verus! {

/// Why a dataflow could not be started.
#[derive(Debug, Clone, Copy, PartialEq, Eq, Structural)]
pub enum StartError {
    /// No daemon is connected.
    NoDaemon,
    /// The dataflow has no node.
    EmptyDataflow,
    /// A dataflow with this identifier is running or starting.
    DuplicateDataflow,
    /// No daemon is connected for the machine of the node at this place in
    /// the list, the first of its kind.
    NoDaemonFor { node: usize },
}

/// Why a dataflow could not be stopped.
#[derive(Debug, Clone, PartialEq, Eq)]
pub enum StopError {
    /// No running dataflow has this identifier or this name.
    NotFound,
    /// Several running dataflows have this name; these are their
    /// identifiers.
    AmbiguousName { uuids: Vec<u128> },
    /// A client already waits for this dataflow to stop.
    AlreadyStopping,
}

/// The identifiers in hyphenated form, with a comma and a space between
/// them.
pub open spec fn uuid_list(uuids: Seq<u128>) -> Seq<char>
    decreases uuids.len(),
{
    if uuids.len() == 0 {
        Seq::empty()
    } else if uuids.len() == 1 {
        hyphenated(uuids[0])
    } else {
        uuid_list(uuids.drop_last()) + ", "@ + hyphenated(uuids.last())
    }
}

impl StartError {
    /// The error in words, as the client is told of it.
    pub open spec fn text(self) -> Seq<char> {
        match self {
            StartError::NoDaemon => "no daemon connection"@,
            StartError::EmptyDataflow => "the dataflow has no nodes"@,
            StartError::DuplicateDataflow => "a dataflow with this id exists already"@,
            StartError::NoDaemonFor { node } => "no daemon is connected for the machine of node "@
                + decimal(node as nat),
        }
    }

    pub fn message(&self) -> (text: String)
        ensures
            text@ == self.text(),
    {
        match self {
            StartError::NoDaemon => "no daemon connection".to_owned(),
            StartError::EmptyDataflow => "the dataflow has no nodes".to_owned(),
            StartError::DuplicateDataflow => "a dataflow with this id exists already".to_owned(),
            StartError::NoDaemonFor { node } => {
                let mut text = String::new();
                push_str(&mut text, "no daemon is connected for the machine of node ");
                let number = decimal_text(*node as u64);
                push_str(&mut text, number.as_str());
                assert(text@ =~= self.text());
                text
            },
        }
    }
}

impl StopError {
    /// The error in words, as the client is told of it. An ambiguous name
    /// is told with the identifier of every dataflow that it belongs to.
    pub open spec fn text(self) -> Seq<char> {
        match self {
            StopError::NotFound => "no running dataflow found"@,
            StopError::AmbiguousName { uuids } => "the name belongs to several dataflows: "@
                + uuid_list(uuids@),
            StopError::AlreadyStopping => "the dataflow is being stopped already"@,
        }
    }

    pub fn message(&self) -> (text: String)
        ensures
            text@ == self.text(),
    {
        match self {
            StopError::NotFound => "no running dataflow found".to_owned(),
            StopError::AlreadyStopping => "the dataflow is being stopped already".to_owned(),
            StopError::AmbiguousName { uuids } => {
                let mut text = String::new();
                push_str(&mut text, "the name belongs to several dataflows: ");
                let mut i: usize = 0;
                while i < uuids.len()
                    invariant
                        i <= uuids.len(),
                        text@ == "the name belongs to several dataflows: "@ + uuid_list(
                            uuids@.subrange(0, i as int),
                        ),
                    decreases uuids.len() - i,
                {
                    let ghost before = text@;
                    let ghost seen = uuids@.subrange(0, i as int);
                    proof {
                        let next = uuids@.subrange(0, i + 1);
                        assert(next.drop_last() =~= seen);
                        assert(next.last() == uuids[i as int]);
                        if i == 0 {
                            assert(next[0] == uuids[0]);
                        }
                    }
                    if i > 0 {
                        push_str(&mut text, ", ");
                    }
                    let id = uuid_text(uuids[i]);
                    push_str(&mut text, id.as_str());
                    assert(text@ =~= "the name belongs to several dataflows: "@ + uuid_list(
                        uuids@.subrange(0, i + 1),
                    ));
                    i += 1;
                }
                assert(uuids@.subrange(0, uuids.len() as int) =~= uuids@);
                text
            },
        }
    }
}

/// One dataflow as the coordinator knows it, as a mathematical value.
pub struct InstanceModel {
    pub id: DataflowId,
    /// The daemons that run the dataflow.
    pub daemons: Seq<Seq<char>>,
    pub status: DataflowStatus,
    pub completion: CompletionModel,
    /// The client that waits for the dataflow to stop.
    pub stopper: Option<u64>,
}

impl InstanceModel {
    pub open spec fn running(self) -> bool {
        self.status == DataflowStatus::Running
    }

    pub open spec fn is_named(self, name: Seq<char>) -> bool {
        self.id.name matches Some(given) && given@ == name
    }

    /// The instance as it stands when every targeted daemon has spawned.
    pub open spec fn started(uuid: u128, name: Option<String>, daemons: Seq<Seq<char>>)
        -> InstanceModel {
        InstanceModel {
            id: DataflowId { uuid, name },
            daemons,
            status: DataflowStatus::Running,
            completion: CompletionModel::fresh(uuid, daemons),
            stopper: None,
        }
    }

    /// The instance after one daemon has reported that the dataflow is
    /// over there.
    pub open spec fn report(self, daemon: Seq<char>, result: Result<(), String>) -> InstanceModel {
        if !self.running() {
            self
        } else {
            match self.completion.result(daemon, result) {
                None => InstanceModel { completion: self.completion.record(daemon, result), ..self },
                Some(end) => InstanceModel {
                    completion: self.completion.record(daemon, result),
                    status: if end.outcome is Ok {
                        DataflowStatus::Finished
                    } else {
                        DataflowStatus::Failed
                    },
                    stopper: None,
                    ..self
                },
            }
        }
    }

    /// What the report of one daemon brings to an end, if anything.
    pub open spec fn ended_by(self, daemon: Seq<char>, result: Result<(), String>) -> Option<Ended> {
        if !self.running() {
            None
        } else {
            match self.completion.result(daemon, result) {
                None => None,
                Some(end) => Some(Ended { result: end, client: self.stopper }),
            }
        }
    }
}

/// The end of a dataflow on all its daemons.
#[derive(Debug)]
pub struct Ended {
    pub result: DataflowResult,
    /// The client that asked for the stop and is to be told the result.
    pub client: Option<u64>,
}

/// The nodes as they are sent out: where a single daemon is connected every
/// node is placed on it.
pub open spec fn placed(nodes: Seq<ResolvedNode>, daemons: Seq<String>) -> Seq<ResolvedNode> {
    if daemons.len() == 1 {
        nodes.map_values(|node: ResolvedNode| ResolvedNode { machine: daemons[0], ..node })
    } else {
        nodes
    }
}

/// The machines of the nodes, in order.
pub open spec fn machines(nodes: Seq<ResolvedNode>) -> Seq<Seq<char>> {
    nodes.map_values(|node: ResolvedNode| node.machine@)
}

/// The place of the first node whose machine is none of `daemons`.
pub open spec fn first_homeless(nodes: Seq<ResolvedNode>, daemons: Seq<Seq<char>>) -> Option<int>
    decreases nodes.len(),
{
    if nodes.len() == 0 {
        None
    } else {
        match first_homeless(nodes.drop_last(), daemons) {
            Some(i) => Some(i),
            None => if daemons.contains(nodes.last().machine@) {
                None
            } else {
                Some(nodes.len() - 1)
            },
        }
    }
}

/// The names of the list, each where it first stands.
pub open spec fn first_seen(list: Seq<Seq<char>>) -> Seq<Seq<char>>
    decreases list.len(),
{
    if list.len() == 0 {
        list
    } else if first_seen(list.drop_last()).contains(list.last()) {
        first_seen(list.drop_last())
    } else {
        first_seen(list.drop_last()).push(list.last())
    }
}

pub proof fn lemma_first_seen(list: Seq<Seq<char>>)
    ensures
        first_seen(list).no_duplicates(),
        forall|name: Seq<char>| #[trigger] first_seen(list).contains(name) <==> list.contains(name),
        list.len() > 0 ==> first_seen(list).len() > 0,
    decreases list.len(),
{
    if list.len() > 0 {
        let front = list.drop_last();
        lemma_first_seen(front);
        let out = first_seen(list);
        let seen = first_seen(front);
        assert forall|name: Seq<char>| #[trigger] out.contains(name) <==> list.contains(name) by {
            if out.contains(name) {
                let k = choose|k: int| 0 <= k < out.len() && out[k] == name;
                if k < seen.len() {
                    assert(seen[k] == name);
                    assert(seen.contains(name));
                    let j = choose|j: int| 0 <= j < front.len() && front[j] == name;
                    assert(list[j] == name);
                } else {
                    assert(list[list.len() - 1] == name);
                }
            }
            if list.contains(name) {
                let j = choose|j: int| 0 <= j < list.len() && list[j] == name;
                if j < front.len() {
                    assert(front[j] == name);
                    assert(seen.contains(name));
                    let k = choose|k: int| 0 <= k < seen.len() && seen[k] == name;
                    assert(out[k] == name);
                } else if seen.contains(name) {
                } else {
                    assert(out[out.len() - 1] == name);
                }
            }
        }
        if !seen.contains(list.last()) {
            assert forall|i: int, j: int| 0 <= i < out.len() && 0 <= j < out.len() && i != j implies out[i]
                != out[j] by {
                if i == out.len() - 1 {
                    assert(seen[j] == out[j]);
                    assert(seen.contains(out[j]));
                } else if j == out.len() - 1 {
                    assert(seen[i] == out[i]);
                    assert(seen.contains(out[i]));
                } else {
                    assert(seen[i] != seen[j]);
                }
            }
            assert(out[out.len() - 1] == list.last());
        } else {
            let k = choose|k: int| 0 <= k < seen.len() && seen[k] == list.last();
        }
    }
}

/// The identifiers of the running dataflows of this name, in order.
pub open spec fn named(dataflows: Seq<InstanceModel>, name: Seq<char>) -> Seq<u128>
    decreases dataflows.len(),
{
    if dataflows.len() == 0 {
        Seq::empty()
    } else if dataflows.last().running() && dataflows.last().is_named(name) {
        named(dataflows.drop_last(), name).push(dataflows.last().id.uuid)
    } else {
        named(dataflows.drop_last(), name)
    }
}

/// The daemons without the one of this name, in order.
pub open spec fn lost_from(daemons: Seq<String>, daemon: Seq<char>) -> Seq<String>
    decreases daemons.len(),
{
    if daemons.len() == 0 {
        daemons
    } else if daemons.last()@ == daemon {
        lost_from(daemons.drop_last(), daemon)
    } else {
        lost_from(daemons.drop_last(), daemon).push(daemons.last())
    }
}

pub proof fn lemma_lost_from(daemons: Seq<String>, daemon: Seq<char>)
    requires
        names(daemons).no_duplicates(),
    ensures
        names(lost_from(daemons, daemon)) == strike(names(daemons), daemon),
        names(lost_from(daemons, daemon)).no_duplicates(),
    decreases daemons.len(),
{
    if daemons.len() > 0 {
        let front = daemons.drop_last();
        assert(names(front) =~= names(daemons).drop_last());
        assert(names(front).no_duplicates()) by {
            assert forall|i: int, j: int|
                0 <= i < front.len() && 0 <= j < front.len() && i != j implies names(front)[i]
                != names(front)[j] by {
                assert(names(daemons)[i] != names(daemons)[j]);
            }
        }
        lemma_lost_from(front, daemon);
        assert(names(daemons).last() == daemons.last()@);
        if daemons.last()@ != daemon {
            assert(names(lost_from(front, daemon).push(daemons.last())) =~= names(
                lost_from(front, daemon),
            ).push(daemons.last()@));
        }
    }
    lemma_strike_distinct(names(daemons), daemon);
}

/// The ends that the silence of a daemon brings about, in the order of the
/// dataflows.
pub open spec fn ended_by_loss(dataflows: Seq<InstanceModel>, daemon: Seq<char>, description: String)
    -> Seq<Ended>
    decreases dataflows.len(),
{
    if dataflows.len() == 0 {
        Seq::empty()
    } else {
        match dataflows.last().ended_by(daemon, Err(description)) {
            Some(ended) => ended_by_loss(dataflows.drop_last(), daemon, description).push(ended),
            None => ended_by_loss(dataflows.drop_last(), daemon, description),
        }
    }
}

/// The identifiers of the starts that wait for an answer of the daemon, in
/// order.
pub open spec fn starts_awaiting(starts: Seq<StartModel>, daemon: Seq<char>) -> Seq<u128>
    decreases starts.len(),
{
    if starts.len() == 0 {
        Seq::empty()
    } else if starts.last().awaits(daemon) {
        starts_awaiting(starts.drop_last(), daemon).push(starts.last().uuid)
    } else {
        starts_awaiting(starts.drop_last(), daemon)
    }
}

/// The coordinator as a mathematical value.
pub struct CoordinatorModel {
    /// The connected daemons, by the name of their machine.
    pub daemons: Seq<String>,
    /// The dataflows that have started, running or over.
    pub dataflows: Seq<InstanceModel>,
    /// The starts that wait for answers.
    pub starts: Seq<StartModel>,
    /// The client that asked for everything to be destroyed.
    pub destroyer: Option<u64>,
    /// The daemons that have not acknowledged `Destroy`.
    pub undestroyed: Seq<Seq<char>>,
}

impl CoordinatorModel {
    pub open spec fn empty() -> CoordinatorModel {
        CoordinatorModel {
            daemons: Seq::empty(),
            dataflows: Seq::empty(),
            starts: Seq::empty(),
            destroyer: None,
            undestroyed: Seq::empty(),
        }
    }

    pub open spec fn wf(self) -> bool {
        &&& names(self.daemons).no_duplicates()
        &&& forall|i: int, j: int|
            0 <= i < j < self.dataflows.len() ==> (#[trigger] self.dataflows[i]).id.uuid != (
            #[trigger] self.dataflows[j]).id.uuid
        &&& forall|i: int, j: int|
            0 <= i < j < self.starts.len() ==> (#[trigger] self.starts[i]).uuid != (
            #[trigger] self.starts[j]).uuid
        &&& forall|i: int, j: int|
            0 <= i < self.starts.len() && 0 <= j < self.dataflows.len() ==> (
            #[trigger] self.starts[i]).uuid != (#[trigger] self.dataflows[j]).id.uuid
        &&& forall|i: int|
            0 <= i < self.starts.len() ==> (#[trigger] self.starts[i]).wf()
                && self.starts[i].waiting.len() > 0
        &&& forall|i: int|
            0 <= i < self.dataflows.len() ==> (
            #[trigger] self.dataflows[i]).completion.waiting.no_duplicates()
                && self.dataflows[i].completion.uuid == self.dataflows[i].id.uuid
    }

    /// A dataflow of this identifier has started.
    pub open spec fn has_instance(self, uuid: u128) -> bool {
        exists|i: int| 0 <= i < self.dataflows.len() && (#[trigger] self.dataflows[i]).id.uuid == uuid
    }

    pub open spec fn instance_at(self, uuid: u128) -> int {
        choose|i: int| 0 <= i < self.dataflows.len() && (#[trigger] self.dataflows[i]).id.uuid == uuid
    }

    /// A dataflow of this identifier is starting.
    pub open spec fn is_starting(self, uuid: u128) -> bool {
        exists|i: int| 0 <= i < self.starts.len() && (#[trigger] self.starts[i]).uuid == uuid
    }

    pub open spec fn start_at(self, uuid: u128) -> int {
        choose|i: int| 0 <= i < self.starts.len() && (#[trigger] self.starts[i]).uuid == uuid
    }

    pub open spec fn daemon_connected(self, machine: String) -> CoordinatorModel {
        if names(self.daemons).contains(machine@) {
            self
        } else {
            CoordinatorModel { daemons: self.daemons.push(machine), ..self }
        }
    }

    /// The error that a start answers with, if any.
    pub open spec fn start_error(self, uuid: u128, nodes: Seq<ResolvedNode>) -> Option<StartError> {
        if self.daemons.len() == 0 {
            Some(StartError::NoDaemon)
        } else if nodes.len() == 0 {
            Some(StartError::EmptyDataflow)
        } else if self.has_instance(uuid) || self.is_starting(uuid) {
            Some(StartError::DuplicateDataflow)
        } else {
            match first_homeless(placed(nodes, self.daemons), names(self.daemons)) {
                Some(i) => Some(StartError::NoDaemonFor { node: i as usize }),
                None => None,
            }
        }
    }

    /// The daemons that a dataflow of these nodes is spawned on.
    pub open spec fn targets(self, nodes: Seq<ResolvedNode>) -> Seq<Seq<char>> {
        first_seen(machines(placed(nodes, self.daemons)))
    }

    pub open spec fn start(self, uuid: u128, name: Option<String>, client: u64, nodes: Seq<ResolvedNode>)
        -> CoordinatorModel {
        CoordinatorModel {
            starts: self.starts.push(StartModel::fresh(uuid, name, client, self.targets(nodes))),
            ..self
        }
    }

    /// The coordinator after one daemon has answered `Spawn`.
    pub open spec fn spawn_result(self, daemon: Seq<char>, uuid: u128, ok: bool) -> CoordinatorModel {
        if !self.is_starting(uuid) {
            self
        } else {
            let i = self.start_at(uuid);
            let start = self.starts[i].record(daemon, ok);
            if !start.settled() {
                CoordinatorModel { starts: self.starts.update(i, start), ..self }
            } else if start.aborted {
                CoordinatorModel { starts: self.starts.remove(i), ..self }
            } else {
                CoordinatorModel {
                    starts: self.starts.remove(i),
                    dataflows: self.dataflows.push(
                        InstanceModel::started(uuid, start.name, start.spawned),
                    ),
                    ..self
                }
            }
        }
    }

    /// The error that `stop` answers with, if any.
    pub open spec fn stop_error(self, uuid: u128) -> Option<StopError> {
        if !self.has_instance(uuid) || !self.dataflows[self.instance_at(uuid)].running() {
            Some(StopError::NotFound)
        } else if self.dataflows[self.instance_at(uuid)].stopper is Some {
            Some(StopError::AlreadyStopping)
        } else {
            None
        }
    }

    pub open spec fn stop(self, client: u64, uuid: u128) -> CoordinatorModel {
        let i = self.instance_at(uuid);
        CoordinatorModel {
            dataflows: self.dataflows.update(
                i,
                InstanceModel { stopper: Some(client), ..self.dataflows[i] },
            ),
            ..self
        }
    }

    /// The coordinator after one daemon has reported that a dataflow is
    /// over there.
    pub open spec fn daemon_done(self, daemon: Seq<char>, uuid: u128, result: Result<(), String>)
        -> CoordinatorModel {
        if !self.has_instance(uuid) {
            self
        } else {
            let i = self.instance_at(uuid);
            CoordinatorModel {
                dataflows: self.dataflows.update(i, self.dataflows[i].report(daemon, result)),
                ..self
            }
        }
    }

    /// The coordinator after a daemon has been given up: it is struck from
    /// the connected daemons, and every dataflow that still waits for its
    /// report takes its silence for a failure of this description.
    pub open spec fn daemon_lost(self, daemon: Seq<char>, description: String) -> CoordinatorModel {
        CoordinatorModel {
            daemons: lost_from(self.daemons, daemon),
            dataflows: Seq::new(
                self.dataflows.len(),
                |i: int| self.dataflows[i].report(daemon, Err(description)),
            ),
            ..self
        }
    }

    pub open spec fn destroy(self, client: u64) -> CoordinatorModel {
        CoordinatorModel { destroyer: Some(client), undestroyed: names(self.daemons), ..self }
    }

    /// The wait for acknowledgments of `Destroy` is given up.
    pub open spec fn destroy_timeout(self) -> CoordinatorModel {
        CoordinatorModel { undestroyed: Seq::empty(), ..self }
    }

    pub open spec fn destroy_result(self, daemon: Seq<char>) -> CoordinatorModel {
        CoordinatorModel { undestroyed: strike(self.undestroyed, daemon), ..self }
    }

    /// The client that is told that everything is destroyed, when this
    /// acknowledgment is the last that was waited for.
    pub open spec fn destroyed_by(self, daemon: Seq<char>) -> Option<u64> {
        if self.undestroyed.contains(daemon) && strike(self.undestroyed, daemon).len() == 0 {
            self.destroyer
        } else {
            None
        }
    }
}

/// One dataflow as the coordinator knows it.
pub struct DataflowInstance {
    id: DataflowId,
    daemons: Vec<String>,
    status: DataflowStatus,
    completion: CompletionTracker,
    stopper: Option<u64>,
}

impl View for DataflowInstance {
    type V = InstanceModel;

    closed spec fn view(&self) -> InstanceModel {
        InstanceModel {
            id: self.id,
            daemons: names(self.daemons@),
            status: self.status,
            completion: self.completion@,
            stopper: self.stopper,
        }
    }
}

/// What is to be sent out for a start: `command` to each of `targets`.
#[derive(Debug)]
pub struct SpawnPlan {
    pub command: SpawnDataflowNodes,
    pub targets: Vec<String>,
}

/// What one answer to `Spawn` sets in motion.
#[derive(Debug)]
pub struct SpawnOutcome {
    /// The daemons that are to be told to stop the dataflow.
    pub stop: Vec<String>,
    /// The client that is to be told something, and what.
    pub reply: Option<(u64, StartDataflowResult)>,
}

/// What is to be sent out for a stop: `StopDataflow` for `uuid` to each of
/// `targets`.
#[derive(Debug)]
pub struct StopPlan {
    pub uuid: u128,
    pub targets: Vec<String>,
}

/// What is to be sent out for a destroy: `Destroy` to each of `targets`.
#[derive(Debug)]
pub struct DestroyPlan {
    pub targets: Vec<String>,
    /// No daemon is connected: the client can be answered at once.
    pub finished: bool,
}

/// A copy of the list that spells the same names.
pub fn copy_names(list: &Vec<String>) -> (out: Vec<String>)
    ensures
        names(out@) == names(list@),
        out@ == list@,
{
    let mut out: Vec<String> = Vec::new();
    let mut i: usize = 0;
    while i < list.len()
        invariant
            i <= list.len(),
            out@ == list@.subrange(0, i as int),
        decreases list.len() - i,
    {
        out.push(list[i].clone());
        assert(list@.subrange(0, i + 1) =~= list@.subrange(0, i as int).push(list[i as int]));
        i += 1;
    }
    assert(list@.subrange(0, list.len() as int) =~= list@);
    out
}

/// The instances as mathematical values, in order.
pub open spec fn instances_view(list: Seq<DataflowInstance>) -> Seq<InstanceModel> {
    list.map_values(|instance: DataflowInstance| instance@)
}

/// The starts as mathematical values, in order.
pub open spec fn starts_view(list: Seq<StartTracker>) -> Seq<StartModel> {
    list.map_values(|start: StartTracker| start@)
}

/// Whether `plan` and `after` are what a start under the identifier `uuid`
/// leads to: the refusal that is due and no change, or the nodes as they
/// are placed, the daemons that they are spawned on, and one more start
/// that waits for the answers of those daemons.
pub open spec fn started_as(
    before: CoordinatorModel,
    after: CoordinatorModel,
    uuid: u128,
    client: u64,
    name: Option<String>,
    working_dir: String,
    nodes: Seq<ResolvedNode>,
    daemon_communication: DaemonCommunicationConfig,
    plan: Result<SpawnPlan, StartError>,
) -> bool {
    match before.start_error(uuid, nodes) {
        Some(error) => plan == Err::<SpawnPlan, StartError>(error) && after == before,
        None => {
            &&& plan matches Ok(plan)
            &&& plan.command.dataflow_id == uuid
            &&& plan.command.working_dir == working_dir
            &&& plan.command.nodes@ == placed(nodes, before.daemons)
            &&& plan.command.daemon_communication == daemon_communication
            &&& names(plan.targets@) == before.targets(nodes)
            &&& after == before.start(uuid, name, client, nodes)
        },
    }
}

/// The state of the control plane.
pub struct Coordinator {
    daemons: Vec<String>,
    dataflows: Vec<DataflowInstance>,
    starts: Vec<StartTracker>,
    destroyer: Option<u64>,
    undestroyed: Vec<String>,
}

impl View for Coordinator {
    type V = CoordinatorModel;

    closed spec fn view(&self) -> CoordinatorModel {
        CoordinatorModel {
            daemons: self.daemons@,
            dataflows: instances_view(self.dataflows@),
            starts: starts_view(self.starts@),
            destroyer: self.destroyer,
            undestroyed: names(self.undestroyed@),
        }
    }
}

impl Coordinator {
    /// The state is consistent.
    pub closed spec fn wf(&self) -> bool {
        self@.wf()
    }

    pub proof fn lemma_model_wf(&self)
        requires
            self.wf(),
        ensures
            self@.wf(),
    {
    }

    pub fn new() -> (coordinator: Coordinator)
        ensures
            coordinator.wf(),
            coordinator@ == CoordinatorModel::empty(),
    {
        let coordinator = Coordinator {
            daemons: Vec::new(),
            dataflows: Vec::new(),
            starts: Vec::new(),
            destroyer: None,
            undestroyed: Vec::new(),
        };
        assert(coordinator@.dataflows =~= Seq::empty());
        assert(coordinator@.starts =~= Seq::empty());
        assert(coordinator@.undestroyed =~= Seq::empty());
        assert(names(coordinator@.daemons) =~= Seq::empty());
        coordinator
    }

    fn find_instance(&self, uuid: u128) -> (at: Option<usize>)
        requires
            self.wf(),
        ensures
            match at {
                Some(i) => self@.has_instance(uuid) && i == self@.instance_at(uuid) && i
                    < self.dataflows.len(),
                None => !self@.has_instance(uuid),
            },
    {
        let mut i: usize = 0;
        while i < self.dataflows.len()
            invariant
                self.wf(),
                i <= self.dataflows.len(),
                forall|j: int| 0 <= j < i ==> (#[trigger] self@.dataflows[j]).id.uuid != uuid,
            decreases self.dataflows.len() - i,
        {
            if self.dataflows[i].id.uuid == uuid {
                proof {
                    assert(self@.dataflows[i as int].id.uuid == uuid);
                    let k = self@.instance_at(uuid);
                    if k < i {
                        assert(self@.dataflows[k].id.uuid != self@.dataflows[i as int].id.uuid);
                    } else if i < k {
                        assert(self@.dataflows[i as int].id.uuid != self@.dataflows[k].id.uuid);
                    }
                }
                return Some(i);
            }
            i += 1;
        }
        None
    }

    fn find_start(&self, uuid: u128) -> (at: Option<usize>)
        requires
            self.wf(),
        ensures
            match at {
                Some(i) => self@.is_starting(uuid) && i == self@.start_at(uuid) && i
                    < self.starts.len(),
                None => !self@.is_starting(uuid),
            },
    {
        let mut i: usize = 0;
        while i < self.starts.len()
            invariant
                self.wf(),
                i <= self.starts.len(),
                forall|j: int| 0 <= j < i ==> (#[trigger] self@.starts[j]).uuid != uuid,
            decreases self.starts.len() - i,
        {
            if self.starts[i].uuid() == uuid {
                proof {
                    assert(self@.starts[i as int].uuid == uuid);
                    let k = self@.start_at(uuid);
                    if k < i {
                        assert(self@.starts[k].uuid != self@.starts[i as int].uuid);
                    } else if i < k {
                        assert(self@.starts[i as int].uuid != self@.starts[k].uuid);
                    }
                }
                return Some(i);
            }
            i += 1;
        }
        None
    }

    /// A daemon has connected and named its machine. A second daemon of
    /// the same name is not taken in.
    pub fn daemon_connected(&mut self, machine: String) -> (taken: bool)
        requires
            old(self).wf(),
        ensures
            final(self).wf(),
            taken == !names(old(self)@.daemons).contains(machine@),
            final(self)@ == old(self)@.daemon_connected(machine),
    {
        if has_name(&self.daemons, &machine) {
            return false;
        }
        let ghost before = self.daemons@;
        self.daemons.push(machine);
        proof {
            assert(names(before.push(machine)) =~= names(before).push(machine@));
            assert forall|i: int, j: int|
                0 <= i < names(self.daemons@).len() && 0 <= j < names(self.daemons@).len() && i
                    != j implies names(self.daemons@)[i] != names(self.daemons@)[j] by {
                if i < before.len() && j < before.len() {
                    assert(names(before)[i] != names(before)[j]);
                } else if i < before.len() {
                    assert(names(before)[i] == names(self.daemons@)[i]);
                    assert(names(before).contains(names(self.daemons@)[i]));
                } else {
                    assert(names(before)[j] == names(self.daemons@)[j]);
                    assert(names(before).contains(names(self.daemons@)[j]));
                }
            }
        }
        true
    }

    /// How many daemons are connected.
    pub fn daemon_count(&self) -> (count: usize)
        ensures
            count == self@.daemons.len(),
    {
        self.daemons.len()
    }

    /// Starts a dataflow under a fresh random identifier: what
    /// `start_with` does under an identifier that is drawn at random.
    pub fn start(
        &mut self,
        client: u64,
        name: Option<String>,
        working_dir: String,
        nodes: Vec<ResolvedNode>,
        daemon_communication: DaemonCommunicationConfig,
    ) -> (plan: Result<SpawnPlan, StartError>)
        requires
            old(self).wf(),
        ensures
            final(self).wf(),
            exists|uuid: u128|
                is_random_uuid(uuid) && #[trigger] started_as(
                    old(self)@,
                    final(self)@,
                    uuid,
                    client,
                    name,
                    working_dir,
                    nodes@,
                    daemon_communication,
                    plan,
                ),
    {
        let uuid = random_uuid();
        let plan = self.start_with(uuid, client, name, working_dir, nodes, daemon_communication);
        assert(started_as(
            old(self)@,
            self@,
            uuid,
            client,
            name,
            working_dir,
            nodes@,
            daemon_communication,
            plan,
        ));
        plan
    }

    /// Starts a dataflow under the given identifier: checks that every node
    /// has a daemon to run on, and says what is to be spawned where. The
    /// client is answered when the daemons have.
    pub fn start_with(
        &mut self,
        uuid: u128,
        client: u64,
        name: Option<String>,
        working_dir: String,
        nodes: Vec<ResolvedNode>,
        daemon_communication: DaemonCommunicationConfig,
    ) -> (plan: Result<SpawnPlan, StartError>)
        requires
            old(self).wf(),
        ensures
            final(self).wf(),
            started_as(
                old(self)@,
                final(self)@,
                uuid,
                client,
                name,
                working_dir,
                nodes@,
                daemon_communication,
                plan,
            ),
    {
        if self.daemons.len() == 0 {
            return Err(StartError::NoDaemon);
        }
        if nodes.len() == 0 {
            return Err(StartError::EmptyDataflow);
        }
        if self.find_instance(uuid).is_some() || self.find_start(uuid).is_some() {
            return Err(StartError::DuplicateDataflow);
        }
        let ghost given = nodes@;
        let ghost want = placed(given, self.daemons@);
        let sent = if self.daemons.len() == 1 {
            let mut moved: Vec<ResolvedNode> = Vec::new();
            for node in it: nodes
                invariant
                    it.seq() == given,
                    self.daemons.len() == 1,
                    moved@ == placed(given, self.daemons@).subrange(0, it.index() as int),
            {
                let ghost kept = moved@;
                let mut node = node;
                node.machine = self.daemons[0].clone();
                moved.push(node);
                assert(kept.push(node) =~= placed(given, self.daemons@).subrange(
                    0,
                    it.index() + 1,
                ));
            }
            assert(want.subrange(0, given.len() as int) =~= want);
            moved
        } else {
            nodes
        };
        assert(sent@ == want);
        let mut i: usize = 0;
        while i < sent.len()
            invariant
                i <= sent.len(),
                sent@ == want,
                given == nodes@,
                want == placed(given, self.daemons@),
                self == old(self),
                self.wf(),
                self.daemons.len() > 0,
                given.len() > 0,
                !self@.has_instance(uuid),
                !self@.is_starting(uuid),
                first_homeless(want.subrange(0, i as int), names(self.daemons@)) is None,
            decreases sent.len() - i,
        {
            proof {
                let next = want.subrange(0, i + 1);
                assert(next.drop_last() =~= want.subrange(0, i as int));
                assert(next.last() == want[i as int]);
            }
            if !has_name(&self.daemons, &sent[i].machine) {
                proof {
                    lemma_first_homeless_prefix(want, names(self.daemons@), i + 1);
                }
                return Err(StartError::NoDaemonFor { node: i });
            }
            i += 1;
        }
        assert(want.subrange(0, want.len() as int) =~= want);
        let mut targets: Vec<String> = Vec::new();
        let mut k: usize = 0;
        while k < sent.len()
            invariant
                k <= sent.len(),
                sent@ == want,
                given == nodes@,
                names(targets@) == first_seen(machines(want.subrange(0, k as int))),
            decreases sent.len() - k,
        {
            let ghost kept = targets@;
            proof {
                let next = machines(want.subrange(0, k + 1));
                assert(next.drop_last() =~= machines(want.subrange(0, k as int)));
                assert(next.last() == want[k as int].machine@);
            }
            if !has_name(&targets, &sent[k].machine) {
                let copy = sent[k].machine.clone();
                targets.push(copy);
                assert(names(kept.push(copy)) =~= names(kept).push(copy@));
            }
            k += 1;
        }
        let ghost aimed = names(targets@);
        let plan_targets = copy_names(&targets);
        let ghost before = self.starts@;
        let tracker = StartTracker::new(uuid, name, client, targets);
        self.starts.push(tracker);
        proof {
            lemma_first_seen(machines(want));
            assert(starts_view(before.push(tracker)) =~= starts_view(before).push(tracker@));
            assert forall|i: int, j: int| 0 <= i < j < self@.starts.len() implies (
            #[trigger] self@.starts[i]).uuid != (#[trigger] self@.starts[j]).uuid by {
                if j < before.len() {
                    assert(old(self)@.starts[i].uuid != old(self)@.starts[j].uuid);
                } else {
                    assert(old(self)@.starts[i].uuid != uuid);
                }
            }
            assert forall|i: int, j: int|
                0 <= i < self@.starts.len() && 0 <= j < self@.dataflows.len() implies (
            #[trigger] self@.starts[i]).uuid != (#[trigger] self@.dataflows[j]).id.uuid by {
                if i < before.len() {
                    assert(old(self)@.starts[i].uuid != old(self)@.dataflows[j].id.uuid);
                } else {
                    assert(old(self)@.dataflows[j].id.uuid != uuid);
                }
            }
            assert forall|i: int| 0 <= i < self@.starts.len() implies (
            #[trigger] self@.starts[i]).wf() && self@.starts[i].waiting.len() > 0 by {
                if i < before.len() {
                    assert(old(self)@.starts[i].wf());
                }
            }
        }
        Ok(
            SpawnPlan {
                command: SpawnDataflowNodes {
                    dataflow_id: uuid,
                    working_dir,
                    nodes: sent,
                    daemon_communication,
                },
                targets: plan_targets,
            },
        )
    }

    /// A daemon has answered `Spawn`.
    pub fn spawn_result(&mut self, daemon: String, uuid: u128, result: Result<(), String>) -> (outcome:
        SpawnOutcome)
        requires
            old(self).wf(),
        ensures
            final(self).wf(),
            final(self)@ == old(self)@.spawn_result(daemon@, uuid, result is Ok),
            !old(self)@.is_starting(uuid) ==> outcome.stop@.len() == 0 && outcome.reply is None,
            old(self)@.is_starting(uuid) ==> {
                let start = old(self)@.starts[old(self)@.start_at(uuid)];
                &&& names(outcome.stop@) == start.stops(daemon@, result is Ok)
                &&& outcome.reply == match start.reply(daemon@, result) {
                    Some(reply) => Some((start.client, reply)),
                    None => None,
                }
            },
    {
        let at = match self.find_start(uuid) {
            Some(i) => i,
            None => {
                return SpawnOutcome { stop: Vec::new(), reply: None };
            },
        };
        let ghost model = self@;
        let ghost before = self.starts@;
        let ghost ok = result is Ok;
        let mut start = self.starts.remove(at);
        let client = start.client();
        let step = start.record(daemon, result);
        let reply = match step.reply {
            Some(reply) => Some((client, reply)),
            None => None,
        };
        proof {
            model.starts[at as int].lemma_record_wf(daemon@, ok);
            assert(starts_view(before.remove(at as int)) =~= starts_view(before).remove(at as int));
            assert forall|i: int| 0 <= i < before.len() - 1 implies #[trigger] starts_view(
                before.remove(at as int),
            )[i] == model.starts[if i < at {
                i
            } else {
                i + 1
            }] by {}
        }
        if !step.settled {
            self.starts.insert(at, start);
            proof {
                assert(self.starts@ =~= before.update(at as int, start));
                assert(starts_view(before.update(at as int, start)) =~= starts_view(before).update(
                    at as int,
                    start@,
                ));
                assert forall|i: int| 0 <= i < self@.starts.len() implies (
                #[trigger] self@.starts[i]).uuid == model.starts[i].uuid by {}
            }
        } else if start.aborted() {
            proof {
                lemma_remove_keeps(model, at as int);
            }
        } else {
            let ghost left = start@;
            let (name, spawned) = start.finish();
            let waiting = copy_names(&spawned);
            let instance = DataflowInstance {
                id: DataflowId { uuid, name },
                daemons: spawned,
                status: DataflowStatus::Running,
                completion: CompletionTracker::new(uuid, waiting),
                stopper: None,
            };
            let ghost had = self.dataflows@;
            self.dataflows.push(instance);
            proof {
                lemma_remove_keeps(model, at as int);
                assert(instances_view(had.push(instance)) =~= instances_view(had).push(instance@));
                assert(instance@ == InstanceModel::started(uuid, left.name, left.spawned));
                assert forall|i: int, j: int| 0 <= i < j < self@.dataflows.len() implies (
                #[trigger] self@.dataflows[i]).id.uuid != (#[trigger] self@.dataflows[j]).id.uuid by {
                    if j < had.len() {
                        assert(model.dataflows[i].id.uuid != model.dataflows[j].id.uuid);
                    } else {
                        assert(model.starts[at as int].uuid != model.dataflows[i].id.uuid);
                    }
                }
                assert forall|i: int, j: int|
                    0 <= i < self@.starts.len() && 0 <= j < self@.dataflows.len() implies (
                #[trigger] self@.starts[i]).uuid != (#[trigger] self@.dataflows[j]).id.uuid by {
                    let i0 = if i < at { i } else { i + 1 };
                    assert(self@.starts[i] == model.starts[i0]);
                    if j < had.len() {
                        assert(model.starts[i0].uuid != model.dataflows[j].id.uuid);
                    } else if i0 < at {
                        assert(model.starts[i0].uuid != model.starts[at as int].uuid);
                    } else {
                        assert(model.starts[at as int].uuid != model.starts[i0].uuid);
                    }
                }
                assert forall|i: int| 0 <= i < self@.dataflows.len() implies (
                #[trigger] self@.dataflows[i]).completion.waiting.no_duplicates()
                    && self@.dataflows[i].completion.uuid == self@.dataflows[i].id.uuid by {
                    if i < had.len() {
                        assert(model.dataflows[i].completion.waiting.no_duplicates());
                    }
                }
            }
        }
        SpawnOutcome { stop: step.stop, reply }
    }

    /// A client asks for a dataflow to be stopped, by its identifier. The
    /// client is answered when the daemons have.
    pub fn stop(&mut self, client: u64, uuid: u128) -> (plan: Result<StopPlan, StopError>)
        requires
            old(self).wf(),
        ensures
            final(self).wf(),
            match old(self)@.stop_error(uuid) {
                Some(error) => plan == Err::<StopPlan, StopError>(error) && final(self)@ == old(
                    self,
                )@,
                None => {
                    &&& plan matches Ok(plan)
                    &&& plan.uuid == uuid
                    &&& names(plan.targets@) == old(self)@.dataflows[old(self)@.instance_at(
                        uuid,
                    )].completion.waiting
                    &&& final(self)@ == old(self)@.stop(client, uuid)
                },
            },
    {
        let at = match self.find_instance(uuid) {
            Some(i) => i,
            None => {
                return Err(StopError::NotFound);
            },
        };
        let ghost model = self@;
        assert(model.dataflows[at as int] == self.dataflows[at as int]@);
        if self.dataflows[at].status != DataflowStatus::Running {
            return Err(StopError::NotFound);
        }
        if self.dataflows[at].stopper.is_some() {
            return Err(StopError::AlreadyStopping);
        }
        let ghost before = self.dataflows@;
        let mut instance = self.dataflows.remove(at);
        instance.stopper = Some(client);
        let targets = instance.completion.waiting();
        self.dataflows.insert(at, instance);
        proof {
            assert(self.dataflows@ =~= before.update(at as int, instance));
            assert(instances_view(before.update(at as int, instance)) =~= instances_view(
                before,
            ).update(at as int, instance@));
            assert forall|i: int| 0 <= i < self@.dataflows.len() implies (
            #[trigger] self@.dataflows[i]).id.uuid == model.dataflows[i].id.uuid
                && self@.dataflows[i].completion == model.dataflows[i].completion by {}
        }
        Ok(StopPlan { uuid, targets })
    }

    /// The identifiers of the running dataflows of this name.
    pub fn running_named(&self, name: &String) -> (uuids: Vec<u128>)
        ensures
            uuids@ == named(self@.dataflows, name@),
    {
        let mut uuids: Vec<u128> = Vec::new();
        let mut i: usize = 0;
        while i < self.dataflows.len()
            invariant
                i <= self.dataflows.len(),
                uuids@ == named(self@.dataflows.subrange(0, i as int), name@),
            decreases self.dataflows.len() - i,
        {
            proof {
                let next = self@.dataflows.subrange(0, i + 1);
                assert(next.drop_last() =~= self@.dataflows.subrange(0, i as int));
                assert(next.last() == self.dataflows[i as int]@);
            }
            let instance = &self.dataflows[i];
            let is_named = match &instance.id.name {
                Some(given) => *given == *name,
                None => false,
            };
            if instance.status == DataflowStatus::Running && is_named {
                uuids.push(instance.id.uuid);
            }
            i += 1;
        }
        assert(self@.dataflows.subrange(0, self.dataflows.len() as int) =~= self@.dataflows);
        uuids
    }

    /// A client asks for a dataflow to be stopped, by its name. The name
    /// has to belong to exactly one running dataflow.
    pub fn stop_by_name(&mut self, client: u64, name: &String) -> (plan: Result<StopPlan, StopError>)
        requires
            old(self).wf(),
        ensures
            final(self).wf(),
            ({
                let found = named(old(self)@.dataflows, name@);
                &&& found.len() == 0 ==> plan == Err::<StopPlan, StopError>(StopError::NotFound)
                    && final(self)@ == old(self)@
                &&& found.len() > 1 ==> (plan matches Err(StopError::AmbiguousName { uuids })
                    && uuids@ == found) && final(self)@ == old(self)@
                &&& found.len() == 1 ==> match old(self)@.stop_error(found[0]) {
                    Some(error) => plan == Err::<StopPlan, StopError>(error) && final(self)@
                        == old(self)@,
                    None => {
                        &&& plan matches Ok(plan)
                        &&& plan.uuid == found[0]
                        &&& names(plan.targets@) == old(self)@.dataflows[old(
                            self,
                        )@.instance_at(found[0])].completion.waiting
                        &&& final(self)@ == old(self)@.stop(client, found[0])
                    },
                }
            }),
    {
        let uuids = self.running_named(name);
        if uuids.len() == 0 {
            Err(StopError::NotFound)
        } else if uuids.len() > 1 {
            Err(StopError::AmbiguousName { uuids })
        } else {
            self.stop(client, uuids[0])
        }
    }

    /// A daemon reports that a dataflow is over on its machine: stopped, or
    /// run to its end. The report of the last daemon ends the dataflow.
    pub fn daemon_done(&mut self, daemon: &String, uuid: u128, result: Result<(), String>) -> (ended:
        Option<Ended>)
        requires
            old(self).wf(),
        ensures
            final(self).wf(),
            final(self)@ == old(self)@.daemon_done(daemon@, uuid, result),
            ended == if old(self)@.has_instance(uuid) {
                old(self)@.dataflows[old(self)@.instance_at(uuid)].ended_by(daemon@, result)
            } else {
                None
            },
    {
        let at = match self.find_instance(uuid) {
            Some(i) => i,
            None => {
                return None;
            },
        };
        let ghost model = self@;
        let ghost before = self.dataflows@;
        assert(model.dataflows[at as int] == before[at as int]@);
        let mut instance = self.dataflows.remove(at);
        let mut ended: Option<Ended> = None;
        if instance.status == DataflowStatus::Running {
            proof {
                instance.completion@.lemma_record_distinct(daemon@, result);
            }
            if let Some(end) = instance.completion.record(daemon, result) {
                instance.status = if end.is_ok() {
                    DataflowStatus::Finished
                } else {
                    DataflowStatus::Failed
                };
                ended = Some(Ended { result: end, client: instance.stopper.take() });
            }
        }
        self.dataflows.insert(at, instance);
        proof {
            assert(self.dataflows@ =~= before.update(at as int, instance));
            assert(instances_view(before.update(at as int, instance)) =~= instances_view(
                before,
            ).update(at as int, instance@));
            assert forall|i: int| 0 <= i < self@.dataflows.len() implies (
            #[trigger] self@.dataflows[i]).id.uuid == model.dataflows[i].id.uuid
                && self@.dataflows[i].completion.waiting.no_duplicates()
                && self@.dataflows[i].completion.uuid == self@.dataflows[i].id.uuid by {
                assert(model.dataflows[i].completion.waiting.no_duplicates());
            }
        }
        ended
    }

    /// The daemons that run the dataflow, if one of this identifier has
    /// started.
    pub fn daemons_of(&self, uuid: u128) -> (daemons: Option<Vec<String>>)
        requires
            self.wf(),
        ensures
            match daemons {
                Some(daemons) => self@.has_instance(uuid) && names(daemons@)
                    == self@.dataflows[self@.instance_at(uuid)].daemons,
                None => !self@.has_instance(uuid),
            },
    {
        match self.find_instance(uuid) {
            Some(i) => {
                assert(self@.dataflows[i as int] == self.dataflows[i as int]@);
                Some(copy_names(&self.dataflows[i].daemons))
            },
            None => None,
        }
    }

    /// The starts that wait for an answer of the daemon. When a daemon is
    /// given up, each of them is owed a failed `spawn_result` in its name.
    pub fn starts_awaiting(&self, daemon: &String) -> (uuids: Vec<u128>)
        ensures
            uuids@ == starts_awaiting(self@.starts, daemon@),
    {
        let mut uuids: Vec<u128> = Vec::new();
        let mut i: usize = 0;
        while i < self.starts.len()
            invariant
                i <= self.starts.len(),
                uuids@ == starts_awaiting(self@.starts.subrange(0, i as int), daemon@),
            decreases self.starts.len() - i,
        {
            proof {
                let next = self@.starts.subrange(0, i + 1);
                assert(next.drop_last() =~= self@.starts.subrange(0, i as int));
                assert(next.last() == self.starts[i as int]@);
            }
            if self.starts[i].awaits(daemon) {
                uuids.push(self.starts[i].uuid());
            }
            i += 1;
        }
        assert(self@.starts.subrange(0, self.starts.len() as int) =~= self@.starts);
        uuids
    }

    /// A daemon has not acknowledged the watchdog in time, or has
    /// disconnected: it is given up. Every dataflow that it ran and that
    /// has not ended there counts as failed on it; the result names the
    /// dataflows that this brings to an end.
    pub fn daemon_lost(&mut self, daemon: &String, description: &String) -> (ended: Vec<Ended>)
        requires
            old(self).wf(),
        ensures
            final(self).wf(),
            final(self)@ == old(self)@.daemon_lost(daemon@, *description),
            ended@ == ended_by_loss(old(self)@.dataflows, daemon@, *description),
    {
        let ghost model = self@;
        let ghost had = self.daemons@;
        let mut rest: Vec<String> = Vec::new();
        core::mem::swap(&mut self.daemons, &mut rest);
        for name in it: rest
            invariant
                it.seq() == had,
                self.daemons@ == lost_from(had.subrange(0, it.index() as int), daemon@),
                self.dataflows == old(self).dataflows,
                self.starts == old(self).starts,
                self.destroyer == old(self).destroyer,
                self.undestroyed == old(self).undestroyed,
        {
            proof {
                let next = had.subrange(0, it.index() + 1);
                assert(next.drop_last() =~= had.subrange(0, it.index() as int));
                assert(next.last() == name);
            }
            if name != *daemon {
                self.daemons.push(name);
            }
        }
        assert(had.subrange(0, had.len() as int) =~= had);
        let ghost before = self.dataflows@;
        let mut ended: Vec<Ended> = Vec::new();
        let mut old_list: Vec<DataflowInstance> = Vec::new();
        core::mem::swap(&mut self.dataflows, &mut old_list);
        for instance in it: old_list
            invariant
                it.seq() == before,
                instances_view(before) == model.dataflows,
                model.wf(),
                self.daemons@ == lost_from(had, daemon@),
                self.starts == old(self).starts,
                self.destroyer == old(self).destroyer,
                self.undestroyed == old(self).undestroyed,
                self.dataflows.len() == it.index(),
                forall|j: int|
                    0 <= j < it.index() ==> (#[trigger] self.dataflows[j])@
                        == model.dataflows[j].report(daemon@, Err(*description)),
                ended@ == ended_by_loss(
                    model.dataflows.subrange(0, it.index() as int),
                    daemon@,
                    *description,
                ),
        {
            let ghost at = it.index() as int;
            let mut instance = instance;
            proof {
                assert(model.dataflows[at] == before[at]@);
                let next = model.dataflows.subrange(0, at + 1);
                assert(next.drop_last() =~= model.dataflows.subrange(0, at));
                assert(next.last() == model.dataflows[at]);
            }
            if instance.status == DataflowStatus::Running {
                let failure: Result<(), String> = Err(description.clone());
                if let Some(end) = instance.completion.record(daemon, failure) {
                    instance.status = if end.is_ok() {
                        DataflowStatus::Finished
                    } else {
                        DataflowStatus::Failed
                    };
                    ended.push(Ended { result: end, client: instance.stopper.take() });
                }
            }
            self.dataflows.push(instance);
        }
        proof {
            assert(model.dataflows.subrange(0, before.len() as int) =~= model.dataflows);
            assert(self@.dataflows =~= model.daemon_lost(daemon@, *description).dataflows);
            lemma_lost_from(had, daemon@);
            assert forall|i: int| 0 <= i < self@.dataflows.len() implies (
            #[trigger] self@.dataflows[i]).id.uuid == model.dataflows[i].id.uuid
                && self@.dataflows[i].completion.waiting.no_duplicates()
                && self@.dataflows[i].completion.uuid == self@.dataflows[i].id.uuid by {
                model.dataflows[i].completion.lemma_record_distinct(daemon@, Err(*description));
            }
        }
        ended
    }

    /// The dataflows that have started, each with its status.
    pub fn list(&self) -> (list: DataflowList)
        ensures
            list.0@.len() == self@.dataflows.len(),
            forall|i: int|
                0 <= i < list.0@.len() ==> #[trigger] list.0@[i] == (DataflowListEntry {
                    id: self@.dataflows[i].id,
                    status: self@.dataflows[i].status,
                }),
    {
        let mut entries: Vec<DataflowListEntry> = Vec::new();
        let mut i: usize = 0;
        while i < self.dataflows.len()
            invariant
                i <= self.dataflows.len(),
                entries.len() == i,
                forall|j: int|
                    0 <= j < i ==> #[trigger] entries@[j] == (DataflowListEntry {
                        id: self@.dataflows[j].id,
                        status: self@.dataflows[j].status,
                    }),
            decreases self.dataflows.len() - i,
        {
            let instance = &self.dataflows[i];
            assert(self@.dataflows[i as int] == instance@);
            let name = match &instance.id.name {
                Some(given) => Some(given.clone()),
                None => None,
            };
            entries.push(
                DataflowListEntry {
                    id: DataflowId { uuid: instance.id.uuid, name },
                    status: instance.status,
                },
            );
            i += 1;
        }
        DataflowList(entries)
    }

    /// A client asks for everything to be shut down.
    pub fn destroy(&mut self, client: u64) -> (plan: DestroyPlan)
        requires
            old(self).wf(),
        ensures
            final(self).wf(),
            final(self)@ == old(self)@.destroy(client),
            names(plan.targets@) == names(old(self)@.daemons),
            plan.finished == (old(self)@.daemons.len() == 0),
    {
        self.destroyer = Some(client);
        self.undestroyed = copy_names(&self.daemons);
        let targets = copy_names(&self.daemons);
        DestroyPlan { finished: targets.len() == 0, targets }
    }

    /// Some daemon has not acknowledged `Destroy` in time: the wait is
    /// given up, and the client that waited can be answered.
    pub fn destroy_timeout(&mut self) -> (client: Option<u64>)
        requires
            old(self).wf(),
        ensures
            final(self).wf(),
            final(self)@ == old(self)@.destroy_timeout(),
            client == if old(self)@.undestroyed.len() > 0 {
                old(self)@.destroyer
            } else {
                None
            },
    {
        let waited = self.undestroyed.len() > 0;
        self.undestroyed = Vec::new();
        assert(names(self.undestroyed@) =~= Seq::empty());
        if waited {
            self.destroyer
        } else {
            None
        }
    }

    /// A daemon has acknowledged `Destroy`. With the last acknowledgment
    /// the client can be answered and the coordinator can end.
    pub fn destroy_result(&mut self, daemon: &String) -> (client: Option<u64>)
        requires
            old(self).wf(),
        ensures
            final(self).wf(),
            final(self)@ == old(self)@.destroy_result(daemon@),
            client == old(self)@.destroyed_by(daemon@),
    {
        let waited = has_name(&self.undestroyed, daemon);
        let mut rest: Vec<String> = Vec::new();
        core::mem::swap(&mut self.undestroyed, &mut rest);
        self.undestroyed = strike_name(rest, daemon);
        if waited && self.undestroyed.len() == 0 {
            self.destroyer
        } else {
            None
        }
    }
}

/// Up to the place of the first node without a daemon, no node is without.
pub proof fn lemma_first_homeless_prefix(nodes: Seq<ResolvedNode>, daemons: Seq<Seq<char>>, upto: int)
    requires
        0 < upto <= nodes.len(),
        first_homeless(nodes.subrange(0, upto - 1), daemons) is None,
        !daemons.contains(nodes[upto - 1].machine@),
    ensures
        first_homeless(nodes, daemons) == Some(upto - 1),
{
    let prefix = nodes.subrange(0, upto);
    assert(prefix.drop_last() =~= nodes.subrange(0, upto - 1));
    assert(prefix.last() == nodes[upto - 1]);
    assert(first_homeless(prefix, daemons) == Some(upto - 1));
    lemma_first_homeless_grows(nodes, daemons, upto);
}

/// What is found in a prefix is found in the whole list.
pub proof fn lemma_first_homeless_grows(nodes: Seq<ResolvedNode>, daemons: Seq<Seq<char>>, upto: int)
    requires
        0 <= upto <= nodes.len(),
        first_homeless(nodes.subrange(0, upto), daemons) is Some,
    ensures
        first_homeless(nodes, daemons) == first_homeless(nodes.subrange(0, upto), daemons),
    decreases nodes.len() - upto,
{
    if upto == nodes.len() {
        assert(nodes.subrange(0, upto) =~= nodes);
    } else {
        let next = nodes.subrange(0, upto + 1);
        assert(next.drop_last() =~= nodes.subrange(0, upto));
        lemma_first_homeless_grows(nodes, daemons, upto + 1);
    }
}

/// Taking a start off the list keeps the coordinator consistent.
pub proof fn lemma_remove_keeps(model: CoordinatorModel, at: int)
    requires
        model.wf(),
        0 <= at < model.starts.len(),
    ensures
        (CoordinatorModel { starts: model.starts.remove(at), ..model }).wf(),
{
    let after = CoordinatorModel { starts: model.starts.remove(at), ..model };
    assert forall|i: int| 0 <= i < after.starts.len() implies #[trigger] after.starts[i]
        == model.starts[if i < at {
        i
    } else {
        i + 1
    }] by {}
    assert forall|i: int, j: int| 0 <= i < j < after.starts.len() implies (
    #[trigger] after.starts[i]).uuid != (#[trigger] after.starts[j]).uuid by {
        let i0 = if i < at { i } else { i + 1 };
        let j0 = if j < at { j } else { j + 1 };
        assert(model.starts[i0].uuid != model.starts[j0].uuid);
    }
    assert forall|i: int, j: int|
        0 <= i < after.starts.len() && 0 <= j < after.dataflows.len() implies (
    #[trigger] after.starts[i]).uuid != (#[trigger] after.dataflows[j]).id.uuid by {
        let i0 = if i < at { i } else { i + 1 };
        assert(model.starts[i0].uuid != model.dataflows[j].id.uuid);
    }
    assert forall|i: int| 0 <= i < after.starts.len() implies (#[trigger] after.starts[i]).wf()
        && after.starts[i].waiting.len() > 0 by {
        let i0 = if i < at { i } else { i + 1 };
        assert(model.starts[i0].wf());
    }
}

/// When each daemon was last heard of, as a mathematical value.
pub struct WatchdogModel {
    /// How long a daemon may stay silent, in milliseconds.
    pub timeout: u64,
    /// The daemons and the time at which each was last heard of, in
    /// milliseconds on the caller's clock.
    pub heard: Seq<(Seq<char>, u64)>,
}

/// The entries without those of the daemon, in order.
pub open spec fn without_daemon(heard: Seq<(Seq<char>, u64)>, daemon: Seq<char>) -> Seq<
    (Seq<char>, u64),
>
    decreases heard.len(),
{
    if heard.len() == 0 {
        heard
    } else if heard.last().0 == daemon {
        without_daemon(heard.drop_last(), daemon)
    } else {
        without_daemon(heard.drop_last(), daemon).push(heard.last())
    }
}

/// The daemons that were last heard of more than `timeout` before `now`,
/// in order.
pub open spec fn silent_since(heard: Seq<(Seq<char>, u64)>, timeout: u64, now: u64) -> Seq<Seq<char>>
    decreases heard.len(),
{
    if heard.len() == 0 {
        Seq::empty()
    } else if heard.last().1 + timeout < now {
        silent_since(heard.drop_last(), timeout, now).push(heard.last().0)
    } else {
        silent_since(heard.drop_last(), timeout, now)
    }
}

impl WatchdogModel {
    /// The daemon was heard of at `now`.
    pub open spec fn hear(self, daemon: Seq<char>, now: u64) -> WatchdogModel {
        WatchdogModel { heard: without_daemon(self.heard, daemon).push((daemon, now)), ..self }
    }

    pub open spec fn forget(self, daemon: Seq<char>) -> WatchdogModel {
        WatchdogModel { heard: without_daemon(self.heard, daemon), ..self }
    }
}

/// The entries as mathematical values, in order.
pub open spec fn heard_view(heard: Seq<(String, u64)>) -> Seq<(Seq<char>, u64)> {
    heard.map_values(|entry: (String, u64)| (entry.0@, entry.1))
}

/// Keeps the time at which each daemon last acknowledged the watchdog, and
/// tells which daemons have been silent for too long.
pub struct Watchdog {
    timeout: u64,
    heard: Vec<(String, u64)>,
}

impl View for Watchdog {
    type V = WatchdogModel;

    closed spec fn view(&self) -> WatchdogModel {
        WatchdogModel { timeout: self.timeout, heard: heard_view(self.heard@) }
    }
}

impl Watchdog {
    /// A watchdog that gives up a daemon that has been silent for more than
    /// `timeout` milliseconds.
    pub fn new(timeout: u64) -> (watchdog: Watchdog)
        ensures
            watchdog@ == (WatchdogModel { timeout, heard: Seq::empty() }),
    {
        let watchdog = Watchdog { timeout, heard: Vec::new() };
        assert(watchdog@.heard =~= Seq::empty());
        watchdog
    }

    /// Strikes the entries of the daemon.
    fn strike(&mut self, daemon: &String)
        ensures
            final(self)@ == old(self)@.forget(daemon@),
    {
        let ghost before = self.heard@;
        let mut rest: Vec<(String, u64)> = Vec::new();
        core::mem::swap(&mut self.heard, &mut rest);
        for entry in it: rest
            invariant
                it.seq() == before,
                self.timeout == old(self).timeout,
                heard_view(self.heard@) == without_daemon(
                    heard_view(before.subrange(0, it.index() as int)),
                    daemon@,
                ),
        {
            let ghost kept = self.heard@;
            proof {
                let next = heard_view(before.subrange(0, it.index() + 1));
                assert(next.drop_last() =~= heard_view(before.subrange(0, it.index() as int)));
                assert(next.last() == (entry.0@, entry.1));
            }
            if entry.0 != *daemon {
                self.heard.push(entry);
                assert(heard_view(kept.push(entry)) =~= heard_view(kept).push((entry.0@, entry.1)));
            }
        }
        assert(before.subrange(0, before.len() as int) =~= before);
    }

    /// The daemon has connected, or has acknowledged the watchdog, at
    /// `now`.
    pub fn hear(&mut self, daemon: String, now: u64)
        ensures
            final(self)@ == old(self)@.hear(daemon@, now),
    {
        self.strike(&daemon);
        let ghost kept = self.heard@;
        self.heard.push((daemon, now));
        assert(heard_view(kept.push((daemon, now))) =~= heard_view(kept).push((daemon@, now)));
    }

    /// The daemon is gone and no longer watched.
    pub fn forget(&mut self, daemon: &String)
        ensures
            final(self)@ == old(self)@.forget(daemon@),
    {
        self.strike(daemon);
    }

    /// The daemons that have been silent for too long at `now`, and are to
    /// be given up.
    pub fn silent(&self, now: u64) -> (daemons: Vec<String>)
        ensures
            names(daemons@) == silent_since(self@.heard, self@.timeout, now),
    {
        let mut daemons: Vec<String> = Vec::new();
        let mut i: usize = 0;
        while i < self.heard.len()
            invariant
                i <= self.heard.len(),
                names(daemons@) == silent_since(
                    heard_view(self.heard@.subrange(0, i as int)),
                    self.timeout,
                    now,
                ),
            decreases self.heard.len() - i,
        {
            let ghost found = daemons@;
            proof {
                let next = heard_view(self.heard@.subrange(0, i + 1));
                assert(next.drop_last() =~= heard_view(self.heard@.subrange(0, i as int)));
                assert(next.last() == (self.heard[i as int].0@, self.heard[i as int].1));
            }
            let last = self.heard[i].1;
            if last < now && now - last > self.timeout {
                let copy = self.heard[i].0.clone();
                daemons.push(copy);
                assert(names(found.push(copy)) =~= names(found).push(copy@));
            }
            i += 1;
        }
        assert(self.heard@.subrange(0, self.heard.len() as int) =~= self.heard@);
        daemons
    }
}

} // verus!

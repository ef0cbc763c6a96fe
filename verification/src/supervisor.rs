//! The daemon's supervisor of one dataflow: which of its node processes are
//! being launched, run, or are gone, when a stop turns from a request into
//! a kill, and what is reported to the coordinator.

use vstd::prelude::*;
use crate::config::NodeId;
use crate::daemon_messages::DaemonCoordinatorReply;
use crate::descriptor::ResolvedNode;
use crate::topics::GracePeriod;

verus! {

/// Where the process of one node stands.
#[derive(Debug, Clone, Copy, PartialEq, Eq, Structural)]
pub enum NodeStatus {
    /// The launch has been asked for.
    Launching,
    Running,
    /// The launch has failed.
    Unlaunched,
    /// The process has ended.
    Exited,
}

/// One node as the supervisor sees it, as a mathematical value.
pub struct SupervisedModel {
    pub id: Seq<char>,
    pub status: NodeStatus,
    /// The node was killed because it outlived the grace period.
    pub forced: bool,
}

impl SupervisedModel {
    pub open spec fn alive(self) -> bool {
        self.status == NodeStatus::Launching || self.status == NodeStatus::Running
    }
}

/// The supervisor as a mathematical value.
pub struct SupervisorModel {
    pub nodes: Seq<SupervisedModel>,
    /// When the nodes that are still alive are killed, in milliseconds on
    /// the caller's clock; `None` as long as no stop was asked for.
    pub deadline: Option<u64>,
    /// The description of the first failure.
    pub failure: Option<String>,
}

/// What is to be launched for one node.
#[derive(Debug, Clone, Copy, PartialEq, Eq, Structural)]
pub struct Launch {
    /// The place of the node in the list that was spawned.
    pub node: usize,
    /// The node is a set of operators that the in-process runtime hosts;
    /// else it is a process of its own.
    pub runtime: bool,
}

/// How a dataflow ended on this daemon.
#[derive(Debug, PartialEq, Eq)]
pub struct Finished {
    /// A success, or the description of the first failure. A node that was
    /// killed at the end of the grace period is no failure.
    pub result: Result<(), String>,
    /// Some node was killed at the end of the grace period.
    pub forced: bool,
}

impl Finished {
    /// The answer to the coordinator's `StopDataflow`.
    pub fn stop_reply(self) -> (reply: DaemonCoordinatorReply)
        ensures
            reply == DaemonCoordinatorReply::StopResult(self.result),
    {
        DaemonCoordinatorReply::StopResult(self.result)
    }
}

/// No node is being launched.
pub open spec fn all_launched(nodes: Seq<SupervisedModel>) -> bool {
    forall|i: int| 0 <= i < nodes.len() ==> (#[trigger] nodes[i]).status != NodeStatus::Launching
}

/// No node is alive.
pub open spec fn all_gone(nodes: Seq<SupervisedModel>) -> bool {
    forall|i: int| 0 <= i < nodes.len() ==> !(#[trigger] nodes[i]).alive()
}

/// Some node was killed.
pub open spec fn any_forced(nodes: Seq<SupervisedModel>) -> bool {
    exists|i: int| 0 <= i < nodes.len() && (#[trigger] nodes[i]).forced
}

/// The places of the nodes that are alive and have not been killed, in
/// order.
pub open spec fn overdue(nodes: Seq<SupervisedModel>) -> Seq<usize>
    decreases nodes.len(),
{
    if nodes.len() == 0 {
        Seq::empty()
    } else if nodes.last().alive() && !nodes.last().forced {
        overdue(nodes.drop_last()).push((nodes.len() - 1) as usize)
    } else {
        overdue(nodes.drop_last())
    }
}

/// The result that a description of the first failure, or none, stands for.
pub open spec fn outcome_of(failure: Option<String>) -> Result<(), String> {
    match failure {
        None => Ok(()),
        Some(description) => Err(description),
    }
}

impl SupervisorModel {
    /// The number is the place of a node.
    pub open spec fn knows(self, node: int) -> bool {
        0 <= node < self.nodes.len()
    }

    pub open spec fn stopping(self) -> bool {
        self.deadline is Some
    }

    /// The first failure, with one more that may have happened.
    pub open spec fn failure_with(self, failed: bool, description: String) -> Option<String> {
        if failed && self.failure is None {
            Some(description)
        } else {
            self.failure
        }
    }

    /// The launch of a node has succeeded or failed.
    pub open spec fn launched(self, node: int, result: Result<(), String>) -> SupervisorModel {
        if !self.knows(node) || self.nodes[node].status != NodeStatus::Launching {
            self
        } else {
            let i = node;
            SupervisorModel {
                nodes: self.nodes.update(
                    i,
                    SupervisedModel {
                        status: if result is Ok {
                            NodeStatus::Running
                        } else {
                            NodeStatus::Unlaunched
                        },
                        ..self.nodes[i]
                    },
                ),
                failure: match result {
                    Ok(_) => self.failure,
                    Err(description) => self.failure_with(true, description),
                },
                ..self
            }
        }
    }

    /// What the coordinator is told about the spawn because of this launch:
    /// when it was the last that was waited for, a success if every launch
    /// succeeded, else the first failure.
    pub open spec fn spawn_report(self, node: int, result: Result<(), String>) -> Option<
        DaemonCoordinatorReply,
    > {
        if !self.knows(node) || self.nodes[node].status != NodeStatus::Launching
            || !all_launched(self.launched(node, result).nodes) {
            None
        } else {
            Some(DaemonCoordinatorReply::SpawnResult(outcome_of(self.launched(node, result).failure)))
        }
    }

    /// Whether the end of a process counts as a failure: it ended badly, or
    /// before anybody asked it to stop and without having said that it was
    /// done. A process that was killed at the end of the grace period is
    /// no failure.
    pub open spec fn counts_as_failure(self, node: int, success: bool, early: bool) -> bool {
        !self.nodes[node].forced && (!success || (early && !self.stopping()))
    }

    /// The process of a node has ended.
    pub open spec fn exited(self, node: int, success: bool, early: bool, description: String)
        -> SupervisorModel {
        if !self.knows(node) || !self.nodes[node].alive() {
            self
        } else {
            let i = node;
            SupervisorModel {
                nodes: self.nodes.update(
                    i,
                    SupervisedModel { status: NodeStatus::Exited, ..self.nodes[i] },
                ),
                failure: self.failure_with(
                    self.counts_as_failure(node, success, early),
                    description,
                ),
                ..self
            }
        }
    }

    /// How the dataflow has ended, when this process was the last alive.
    pub open spec fn finished_by(
        self,
        node: int,
        success: bool,
        early: bool,
        description: String,
    ) -> Option<Finished> {
        let after = self.exited(node, success, early, description);
        if !self.knows(node) || !self.nodes[node].alive() || !all_gone(
            after.nodes,
        ) {
            None
        } else {
            Some(Finished { result: outcome_of(after.failure), forced: any_forced(after.nodes) })
        }
    }

    /// The deadline of a stop that is asked for at `now`.
    pub open spec fn deadline_for(now: u64, grace: Option<GracePeriod>, default_ms: u64) -> u64 {
        let wait = match grace {
            Some(grace) => grace.millis(),
            None => default_ms as nat,
        };
        if now + wait > u64::MAX {
            u64::MAX
        } else {
            (now + wait) as u64
        }
    }

    pub open spec fn stop(self, now: u64, grace: Option<GracePeriod>, default_ms: u64)
        -> SupervisorModel {
        if self.stopping() {
            self
        } else {
            SupervisorModel {
                deadline: Some(SupervisorModel::deadline_for(now, grace, default_ms)),
                ..self
            }
        }
    }

    /// The grace period is over at `now`.
    pub open spec fn expired(self, now: u64) -> bool {
        self.deadline matches Some(deadline) && deadline <= now
    }

    /// Every node that has outlived the grace period is marked as killed.
    pub open spec fn timer_fired(self, now: u64) -> SupervisorModel {
        if !self.expired(now) {
            self
        } else {
            SupervisorModel {
                nodes: Seq::new(
                    self.nodes.len(),
                    |i: int|
                        if self.nodes[i].alive() {
                            SupervisedModel { forced: true, ..self.nodes[i] }
                        } else {
                            self.nodes[i]
                        },
                ),
                ..self
            }
        }
    }

    /// The nodes that are to be killed at `now`.
    pub open spec fn kills(self, now: u64) -> Seq<usize> {
        if self.expired(now) {
            overdue(self.nodes)
        } else {
            Seq::empty()
        }
    }
}

/// One node as the supervisor sees it.
pub struct Supervised {
    id: NodeId,
    status: NodeStatus,
    forced: bool,
}

impl View for Supervised {
    type V = SupervisedModel;

    closed spec fn view(&self) -> SupervisedModel {
        SupervisedModel { id: self.id@, status: self.status, forced: self.forced }
    }
}

/// The nodes as mathematical values, in order.
pub open spec fn supervised_view(nodes: Seq<Supervised>) -> Seq<SupervisedModel> {
    nodes.map_values(|node: Supervised| node@)
}

/// The supervisor of one dataflow on one daemon.
pub struct Supervisor {
    nodes: Vec<Supervised>,
    deadline: Option<u64>,
    failure: Option<String>,
}

impl View for Supervisor {
    type V = SupervisorModel;

    closed spec fn view(&self) -> SupervisorModel {
        SupervisorModel {
            nodes: supervised_view(self.nodes@),
            deadline: self.deadline,
            failure: self.failure,
        }
    }
}

impl Supervisor {
    /// Takes the nodes of a dataflow under supervision and says what is to
    /// be launched: a process for each custom node, a runtime host for each
    /// set of operators.
    pub fn spawn(nodes: &Vec<ResolvedNode>) -> (out: (Supervisor, Vec<Launch>))
        ensures
            out.0@.deadline is None,
            out.0@.failure is None,
            out.0@.nodes.len() == nodes.len(),
            out.1@.len() == nodes.len(),
            forall|i: int|
                0 <= i < nodes.len() ==> #[trigger] out.0@.nodes[i] == (SupervisedModel {
                    id: nodes[i].id@,
                    status: NodeStatus::Launching,
                    forced: false,
                }),
            forall|i: int|
                0 <= i < nodes.len() ==> #[trigger] out.1@[i] == (Launch {
                    node: i as usize,
                    runtime: nodes[i].is_runtime(),
                }),
    {
        let mut supervised: Vec<Supervised> = Vec::new();
        let mut launches: Vec<Launch> = Vec::new();
        let mut i: usize = 0;
        while i < nodes.len()
            invariant
                i <= nodes.len(),
                supervised.len() == i,
                launches.len() == i,
                forall|j: int|
                    0 <= j < i ==> (#[trigger] supervised[j])@ == (SupervisedModel {
                        id: nodes[j].id@,
                        status: NodeStatus::Launching,
                        forced: false,
                    }),
                forall|j: int|
                    0 <= j < i ==> #[trigger] launches@[j] == (Launch {
                        node: j as usize,
                        runtime: nodes[j].is_runtime(),
                    }),
            decreases nodes.len() - i,
        {
            supervised.push(
                Supervised {
                    id: nodes[i].id.duplicate(),
                    status: NodeStatus::Launching,
                    forced: false,
                },
            );
            launches.push(Launch { node: i, runtime: nodes[i].hosted_by_runtime() });
            i += 1;
        }
        (Supervisor { nodes: supervised, deadline: None, failure: None }, launches)
    }

    fn none_launching(&self) -> (yes: bool)
        ensures
            yes == all_launched(self@.nodes),
    {
        let mut i: usize = 0;
        while i < self.nodes.len()
            invariant
                i <= self.nodes.len(),
                forall|j: int| 0 <= j < i ==> (#[trigger] self@.nodes[j]).status != NodeStatus::Launching,
            decreases self.nodes.len() - i,
        {
            if self.nodes[i].status == NodeStatus::Launching {
                assert(self@.nodes[i as int].status == NodeStatus::Launching);
                return false;
            }
            i += 1;
        }
        true
    }

    fn none_alive(&self) -> (yes: bool)
        ensures
            yes == all_gone(self@.nodes),
    {
        let mut i: usize = 0;
        while i < self.nodes.len()
            invariant
                i <= self.nodes.len(),
                forall|j: int| 0 <= j < i ==> !(#[trigger] self@.nodes[j]).alive(),
            decreases self.nodes.len() - i,
        {
            let status = self.nodes[i].status;
            if status == NodeStatus::Launching || status == NodeStatus::Running {
                assert(self@.nodes[i as int].alive());
                return false;
            }
            i += 1;
        }
        true
    }

    fn some_forced(&self) -> (yes: bool)
        ensures
            yes == any_forced(self@.nodes),
    {
        let mut i: usize = 0;
        while i < self.nodes.len()
            invariant
                i <= self.nodes.len(),
                forall|j: int| 0 <= j < i ==> !(#[trigger] self@.nodes[j]).forced,
            decreases self.nodes.len() - i,
        {
            if self.nodes[i].forced {
                assert(self@.nodes[i as int].forced);
                return true;
            }
            i += 1;
        }
        false
    }

    /// The result that the first failure, or none, stands for. The
    /// description is handed out and forgotten.
    fn take_outcome(&mut self) -> (result: Result<(), String>)
        ensures
            result == outcome_of(old(self)@.failure),
            final(self)@.failure is None,
            final(self)@.nodes == old(self)@.nodes,
            final(self)@.deadline == old(self)@.deadline,
    {
        match self.failure.take() {
            None => Ok(()),
            Some(description) => Err(description),
        }
    }

    /// Whether a stop was asked for.
    pub fn stopping(&self) -> (yes: bool)
        ensures
            yes == self@.stopping(),
    {
        self.deadline.is_some()
    }

    /// The status of the node at this place.
    pub fn status(&self, node: usize) -> (status: Option<NodeStatus>)
        ensures
            status == if self@.knows(node as int) {
                Some(self@.nodes[node as int].status)
            } else {
                None
            },
    {
        if node < self.nodes.len() {
            assert(self@.nodes[node as int] == self.nodes[node as int]@);
            Some(self.nodes[node].status)
        } else {
            None
        }
    }

    /// The name of the node at this place.
    pub fn node_id(&self, node: usize) -> (id: Option<NodeId>)
        ensures
            match id {
                Some(id) => self@.knows(node as int) && id@ == self@.nodes[node as int].id,
                None => !self@.knows(node as int),
            },
    {
        if node < self.nodes.len() {
            assert(self@.nodes[node as int] == self.nodes[node as int]@);
            Some(self.nodes[node].id.duplicate())
        } else {
            None
        }
    }

    /// The launch of a node has succeeded or failed. With the last launch
    /// the coordinator is owed the result of the spawn.
    pub fn launched(&mut self, node: usize, result: Result<(), String>) -> (report: Option<
        DaemonCoordinatorReply,
    >)
        ensures
            report == old(self)@.spawn_report(node as int, result),
            match report {
                Some(_) => final(self)@ == (SupervisorModel {
                    failure: None,
                    ..old(self)@.launched(node as int, result)
                }),
                None => final(self)@ == old(self)@.launched(node as int, result),
            },
    {
        if node >= self.nodes.len() {
            return None;
        }
        let at = node;
        let ghost before = self.nodes@;
        assert(self@.nodes[at as int] == before[at as int]@);
        if self.nodes[at].status != NodeStatus::Launching {
            return None;
        }
        let mut record = self.nodes.remove(at);
        match result {
            Ok(_) => {
                record.status = NodeStatus::Running;
            },
            Err(description) => {
                record.status = NodeStatus::Unlaunched;
                if self.failure.is_none() {
                    self.failure = Some(description);
                }
            },
        }
        self.nodes.insert(at, record);
        proof {
            assert(self.nodes@ =~= before.update(at as int, record));
            assert(supervised_view(before.update(at as int, record)) =~= supervised_view(
                before,
            ).update(at as int, record@));
        }
        if self.none_launching() {
            Some(DaemonCoordinatorReply::SpawnResult(self.take_outcome()))
        } else {
            None
        }
    }

    /// The process of a node has ended: with `success` or not, `early` if
    /// the node had neither been told to stop nor said that it was done.
    /// When it was the last, the dataflow has ended on this daemon.
    pub fn exited(&mut self, node: usize, success: bool, early: bool, description: String) -> (end:
        Option<Finished>)
        ensures
            end == old(self)@.finished_by(node as int, success, early, description),
            match end {
                Some(_) => final(self)@ == (SupervisorModel {
                    failure: None,
                    ..old(self)@.exited(node as int, success, early, description)
                }),
                None => final(self)@ == old(self)@.exited(node as int, success, early, description),
            },
    {
        if node >= self.nodes.len() {
            return None;
        }
        let at = node;
        let ghost before = self.nodes@;
        assert(self@.nodes[at as int] == before[at as int]@);
        let status = self.nodes[at].status;
        if !(status == NodeStatus::Launching || status == NodeStatus::Running) {
            return None;
        }
        let failed = !self.nodes[at].forced && (!success || (early && self.deadline.is_none()));
        let mut record = self.nodes.remove(at);
        record.status = NodeStatus::Exited;
        self.nodes.insert(at, record);
        if failed && self.failure.is_none() {
            self.failure = Some(description);
        }
        proof {
            assert(self.nodes@ =~= before.update(at as int, record));
            assert(supervised_view(before.update(at as int, record)) =~= supervised_view(
                before,
            ).update(at as int, record@));
        }
        if self.none_alive() {
            let forced = self.some_forced();
            Some(Finished { result: self.take_outcome(), forced })
        } else {
            None
        }
    }

    /// A stop is asked for at `now`, in milliseconds on the caller's clock.
    /// The result is the time at which `timer_fired` is to be called; a
    /// second stop changes nothing and gets none.
    pub fn stop(&mut self, now: u64, grace: Option<GracePeriod>, default_ms: u64) -> (deadline: Option<
        u64,
    >)
        ensures
            final(self)@ == old(self)@.stop(now, grace, default_ms),
            deadline == if old(self)@.stopping() {
                None
            } else {
                Some(SupervisorModel::deadline_for(now, grace, default_ms))
            },
    {
        if self.deadline.is_some() {
            return None;
        }
        let wait = match grace {
            Some(grace) => grace.as_millis(),
            None => default_ms,
        };
        let deadline = if wait > u64::MAX - now {
            u64::MAX
        } else {
            now + wait
        };
        self.deadline = Some(deadline);
        Some(deadline)
    }

    /// The timer of the stop has fired at `now`. The nodes that are still
    /// alive when the grace period is over are to be killed, and are
    /// marked so; before that none is.
    pub fn timer_fired(&mut self, now: u64) -> (kill: Vec<usize>)
        ensures
            final(self)@ == old(self)@.timer_fired(now),
            kill@ == old(self)@.kills(now),
    {
        let mut kill: Vec<usize> = Vec::new();
        let expired = match self.deadline {
            Some(deadline) => deadline <= now,
            None => false,
        };
        if !expired {
            return kill;
        }
        let ghost before = self.nodes@;
        let ghost model = self@;
        let mut rest: Vec<Supervised> = Vec::new();
        core::mem::swap(&mut self.nodes, &mut rest);
        for record in it: rest
            invariant
                it.seq() == before,
                supervised_view(before) == model.nodes,
                self.deadline == old(self).deadline,
                self.failure == old(self).failure,
                self.nodes.len() == it.index(),
                forall|j: int|
                    0 <= j < it.index() ==> (#[trigger] self.nodes[j])@ == if model.nodes[j].alive() {
                        SupervisedModel { forced: true, ..model.nodes[j] }
                    } else {
                        model.nodes[j]
                    },
                kill@ == overdue(model.nodes.subrange(0, it.index() as int)),
        {
            let ghost at = it.index() as int;
            let ghost found = kill@;
            let mut record = record;
            proof {
                assert(model.nodes[at] == before[at]@);
                let next = model.nodes.subrange(0, at + 1);
                assert(next.drop_last() =~= model.nodes.subrange(0, at));
                assert(next.last() == model.nodes[at]);
            }
            if record.status == NodeStatus::Launching || record.status == NodeStatus::Running {
                if !record.forced {
                    kill.push(self.nodes.len());
                }
                record.forced = true;
            }
            self.nodes.push(record);
        }
        proof {
            assert(model.nodes.subrange(0, before.len() as int) =~= model.nodes);
            assert(self@.nodes =~= model.timer_fired(now).nodes);
        }
        kill
    }

    /// The answer to the coordinator's `Watchdog`.
    pub fn watchdog(&self) -> (ack: DaemonCoordinatorReply)
        ensures
            ack == DaemonCoordinatorReply::WatchdogAck,
    {
        DaemonCoordinatorReply::WatchdogAck
    }
}

} // verus!

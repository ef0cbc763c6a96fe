//! Running one dataflow from start to end: what is sent to the daemon, and
//! what the ends of the node tasks amount to.

use vstd::prelude::*;
use crate::daemon_messages::{DaemonCommunicationConfig, SpawnDataflowNodes};
use crate::descriptor::ResolvedNode;
use crate::tracker::{has_name, names};
use crate::trusted::{hyphenated, is_random_uuid, random_uuid, uuid_text};

verus! {

/// Why a dataflow could not be run.
#[derive(Debug, PartialEq, Eq)]
pub enum RunError {
    /// Some node needs the runtime, and there is no runtime to be found.
    RuntimeMissing,
    /// The daemon of the default machine is not connected.
    NoDaemonConnection,
    /// A task could not be joined.
    JoinFailed(String),
    /// A node has failed.
    NodeFailed(String),
}

/// A dataflow that is about to be spawned.
#[derive(Debug)]
pub struct SpawnedDataflow {
    pub uuid: u128,
    /// The prefix that keeps the dataflow's topics apart from those of
    /// every other: its identifier in hyphenated form.
    pub topic_prefix: String,
    /// What is sent to the daemon.
    pub command: SpawnDataflowNodes,
}

/// Some node is hosted by the runtime.
pub open spec fn needs_runtime(nodes: Seq<ResolvedNode>) -> bool {
    exists|i: int| 0 <= i < nodes.len() && (#[trigger] nodes[i]).is_runtime()
}

/// Whether some node is hosted by the runtime.
pub fn uses_runtime(nodes: &Vec<ResolvedNode>) -> (yes: bool)
    ensures
        yes == needs_runtime(nodes@),
{
    let mut i: usize = 0;
    while i < nodes.len()
        invariant
            i <= nodes.len(),
            forall|j: int| 0 <= j < i ==> !(#[trigger] nodes[j]).is_runtime(),
        decreases nodes.len() - i,
    {
        if nodes[i].hosted_by_runtime() {
            return true;
        }
        i += 1;
    }
    false
}

/// The error that `spawn_dataflow` answers with, if any.
pub open spec fn spawn_error(nodes: Seq<ResolvedNode>, runtime_found: bool, daemons: Seq<String>)
    -> Option<RunError> {
    if needs_runtime(nodes) && !runtime_found {
        Some(RunError::RuntimeMissing)
    } else if !names(daemons).contains(Seq::<char>::empty()) {
        Some(RunError::NoDaemonConnection)
    } else {
        None
    }
}

/// Prepares the spawn of a dataflow under the given identifier, for the
/// daemon of the default machine, the one without a name.
pub fn spawn_dataflow_as(
    uuid: u128,
    working_dir: String,
    nodes: Vec<ResolvedNode>,
    runtime_found: bool,
    daemon_connections: &Vec<String>,
    daemon_communication: DaemonCommunicationConfig,
) -> (spawned: Result<SpawnedDataflow, RunError>)
    ensures
        match spawn_error(nodes@, runtime_found, daemon_connections@) {
            Some(error) => spawned == Err::<SpawnedDataflow, RunError>(error),
            None => {
                &&& spawned matches Ok(spawned)
                &&& spawned.uuid == uuid
                &&& spawned.topic_prefix@ == hyphenated(uuid)
                &&& spawned.command == (SpawnDataflowNodes {
                    dataflow_id: uuid,
                    working_dir,
                    nodes,
                    daemon_communication,
                })
            },
        },
{
    if uses_runtime(&nodes) && !runtime_found {
        return Err(RunError::RuntimeMissing);
    }
    let default_machine = String::new();
    if !has_name(daemon_connections, &default_machine) {
        return Err(RunError::NoDaemonConnection);
    }
    Ok(
        SpawnedDataflow {
            uuid,
            topic_prefix: uuid_text(uuid),
            command: SpawnDataflowNodes { dataflow_id: uuid, working_dir, nodes, daemon_communication },
        },
    )
}

/// Prepares the spawn of a dataflow under a fresh random identifier.
pub fn spawn_dataflow(
    working_dir: String,
    nodes: Vec<ResolvedNode>,
    runtime_found: bool,
    daemon_connections: &Vec<String>,
    daemon_communication: DaemonCommunicationConfig,
) -> (spawned: Result<SpawnedDataflow, RunError>)
    ensures
        match spawn_error(nodes@, runtime_found, daemon_connections@) {
            Some(error) => spawned == Err::<SpawnedDataflow, RunError>(error),
            None => {
                &&& spawned matches Ok(spawned)
                &&& is_random_uuid(spawned.uuid)
                &&& spawned.topic_prefix@ == hyphenated(spawned.uuid)
                &&& spawned.command == (SpawnDataflowNodes {
                    dataflow_id: spawned.uuid,
                    working_dir,
                    nodes,
                    daemon_communication,
                })
            },
        },
{
    let uuid = random_uuid();
    spawn_dataflow_as(
        uuid,
        working_dir,
        nodes,
        runtime_found,
        daemon_connections,
        daemon_communication,
    )
}

/// How the task of one node has ended.
#[derive(Debug, PartialEq, Eq)]
pub enum TaskOutcome {
    /// The task has run to its end, and the node has succeeded or failed.
    Joined(Result<(), String>),
    /// The task could not be joined.
    JoinFailed(String),
}

impl TaskOutcome {
    pub open spec fn failure(self) -> Option<RunError> {
        match self {
            TaskOutcome::Joined(Ok(_)) => None,
            TaskOutcome::Joined(Err(description)) => Some(RunError::NodeFailed(description)),
            TaskOutcome::JoinFailed(description) => Some(RunError::JoinFailed(description)),
        }
    }
}

/// The failure of the first task that has not ended well.
pub open spec fn first_failed(outcomes: Seq<TaskOutcome>) -> Option<RunError>
    decreases outcomes.len(),
{
    if outcomes.len() == 0 {
        None
    } else {
        match first_failed(outcomes.drop_last()) {
            Some(error) => Some(error),
            None => outcomes.last().failure(),
        }
    }
}

/// Gathers the ends of the node tasks, in the order in which they ended:
/// the dataflow has run well if every task has, and has failed as the
/// first task that failed.
pub fn await_tasks(outcomes: Vec<TaskOutcome>) -> (done: Result<(), RunError>)
    ensures
        done == match first_failed(outcomes@) {
            Some(error) => Err::<(), RunError>(error),
            None => Ok::<(), RunError>(()),
        },
{
    let ghost all = outcomes@;
    for outcome in it: outcomes
        invariant
            it.seq() == all,
            first_failed(all.subrange(0, it.index() as int)) is None,
    {
        let ghost at = it.index() as int;
        proof {
            let next = all.subrange(0, at + 1);
            assert(next.drop_last() =~= all.subrange(0, at));
            assert(next.last() == outcome);
        }
        let failure = match outcome {
            TaskOutcome::Joined(Ok(_)) => None,
            TaskOutcome::Joined(Err(description)) => Some(RunError::NodeFailed(description)),
            TaskOutcome::JoinFailed(description) => Some(RunError::JoinFailed(description)),
        };
        if let Some(error) = failure {
            proof {
                lemma_first_failed_grows(all, at + 1);
            }
            return Err(error);
        }
    }
    assert(all.subrange(0, all.len() as int) =~= all);
    Ok(())
}

/// The first failure in a prefix is the first failure in the whole list.
pub proof fn lemma_first_failed_grows(outcomes: Seq<TaskOutcome>, upto: int)
    requires
        0 <= upto <= outcomes.len(),
        first_failed(outcomes.subrange(0, upto)) is Some,
    ensures
        first_failed(outcomes) == first_failed(outcomes.subrange(0, upto)),
    decreases outcomes.len() - upto,
{
    if upto == outcomes.len() {
        assert(outcomes.subrange(0, upto) =~= outcomes);
    } else {
        let next = outcomes.subrange(0, upto + 1);
        assert(next.drop_last() =~= outcomes.subrange(0, upto));
        lemma_first_failed_grows(outcomes, upto + 1);
    }
}

} // verus!

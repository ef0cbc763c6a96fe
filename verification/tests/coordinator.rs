use dora_core::config::{NodeId, NodeRunConfig};
use dora_core::coordinator::{Coordinator, StartError, StopError};
use dora_core::daemon_messages::DaemonCommunicationConfig;
use dora_core::descriptor::{CoreNodeKind, ResolvedNode};
use dora_core::run::{await_tasks, spawn_dataflow, spawn_dataflow_as, RunError, TaskOutcome};
use dora_core::topics::{
    DataflowId, DataflowListEntry, DataflowResult, DataflowStatus, StartDataflowResult,
};
use dora_core::tracker::{CompletionTracker, StartTracker};

fn node(name: &str, machine: &str) -> ResolvedNode {
    ResolvedNode {
        id: NodeId::new(name.to_string()),
        machine: machine.to_string(),
        run_config: NodeRunConfig { inputs: vec![], outputs: vec![] },
        kind: CoreNodeKind::Custom { source: "bin".to_string(), args: None },
    }
}

fn s(text: &str) -> String {
    text.to_string()
}

fn two_machines() -> Coordinator {
    let mut coordinator = Coordinator::new();
    assert!(coordinator.daemon_connected(s("m1")));
    assert!(coordinator.daemon_connected(s("m2")));
    assert!(!coordinator.daemon_connected(s("m1")));
    assert_eq!(coordinator.daemon_count(), 2);
    coordinator
}

fn start(coordinator: &mut Coordinator, uuid: u128, name: Option<&str>, client: u64) -> Vec<String> {
    let plan = coordinator
        .start_with(
            uuid,
            client,
            name.map(s),
            s("/work"),
            vec![node("a", "m1"), node("b", "m2"), node("c", "m1")],
            DaemonCommunicationConfig::Tcp,
        )
        .unwrap();
    assert_eq!(plan.command.dataflow_id, uuid);
    assert_eq!(plan.command.nodes.len(), 3);
    plan.targets
}

fn running(coordinator: &mut Coordinator, uuid: u128, name: Option<&str>) {
    let targets = start(coordinator, uuid, name, 1);
    for daemon in targets {
        coordinator.spawn_result(daemon, uuid, Ok(()));
    }
}

#[test]
fn a_start_succeeds_when_every_daemon_has_spawned() {
    let mut coordinator = two_machines();
    let targets = start(&mut coordinator, 11, Some("flow"), 3);
    assert_eq!(targets, vec![s("m1"), s("m2")]);
    let first = coordinator.spawn_result(s("m2"), 11, Ok(()));
    assert_eq!(first.reply, None);
    assert_eq!(first.stop, Vec::<String>::new());
    assert_eq!(coordinator.list().0, vec![]);
    let stray = coordinator.spawn_result(s("m2"), 11, Err(s("late")));
    assert_eq!(stray.reply, None);
    let second = coordinator.spawn_result(s("m1"), 11, Ok(()));
    assert_eq!(second.reply, Some((3, StartDataflowResult::Started { uuid: 11 })));
    assert_eq!(second.stop, Vec::<String>::new());
    assert_eq!(
        coordinator.list().0,
        vec![DataflowListEntry {
            id: DataflowId { uuid: 11, name: Some(s("flow")) },
            status: DataflowStatus::Running,
        }]
    );
}

#[test]
fn a_failed_start_leaves_nothing_running() {
    let mut coordinator = two_machines();
    coordinator.daemon_connected(s("m3"));
    let plan = coordinator
        .start_with(
            12,
            4,
            None,
            s("/work"),
            vec![node("a", "m1"), node("b", "m2"), node("c", "m3")],
            DaemonCommunicationConfig::Tcp,
        )
        .unwrap();
    assert_eq!(plan.targets, vec![s("m1"), s("m2"), s("m3")]);
    let first = coordinator.spawn_result(s("m1"), 12, Ok(()));
    assert_eq!((first.reply, first.stop), (None, vec![]));
    let second = coordinator.spawn_result(s("m2"), 12, Err(s("no such binary")));
    assert_eq!(second.reply, Some((4, StartDataflowResult::Error(s("no such binary")))));
    assert_eq!(second.stop, vec![s("m1")]);
    let third = coordinator.spawn_result(s("m3"), 12, Ok(()));
    assert_eq!(third.reply, None);
    assert_eq!(third.stop, vec![s("m3")]);
    assert_eq!(coordinator.list().0, vec![]);
    assert_eq!(coordinator.stop(9, 12).map(|_| ()), Err(StopError::NotFound));
    // the identifier is free again
    assert_eq!(start(&mut coordinator, 12, None, 5), vec![s("m1"), s("m2")]);
}

#[test]
fn a_start_is_refused_when_nodes_cannot_be_placed() {
    let mut coordinator = Coordinator::new();
    let nodes = || vec![node("a", "m1"), node("b", "m9"), node("c", "m8")];
    let try_start = |coordinator: &mut Coordinator, uuid: u128, nodes: Vec<ResolvedNode>| {
        coordinator
            .start_with(uuid, 1, None, s("/w"), nodes, DaemonCommunicationConfig::Tcp)
            .map(|plan| plan.targets)
    };
    assert_eq!(try_start(&mut coordinator, 1, nodes()), Err(StartError::NoDaemon));
    coordinator.daemon_connected(s("m1"));
    assert_eq!(try_start(&mut coordinator, 1, vec![]), Err(StartError::EmptyDataflow));
    // a single daemon takes every node
    let plan = coordinator
        .start_with(1, 1, None, s("/w"), nodes(), DaemonCommunicationConfig::Tcp)
        .unwrap();
    assert_eq!(plan.targets, vec![s("m1")]);
    assert!(plan.command.nodes.iter().all(|node| node.machine == "m1"));
    assert_eq!(try_start(&mut coordinator, 1, nodes()), Err(StartError::DuplicateDataflow));
    coordinator.daemon_connected(s("m2"));
    assert_eq!(
        try_start(&mut coordinator, 2, nodes()),
        Err(StartError::NoDaemonFor { node: 1 })
    );
    coordinator.spawn_result(s("m1"), 1, Ok(()));
    assert_eq!(try_start(&mut coordinator, 1, nodes()), Err(StartError::DuplicateDataflow));
}

#[test]
fn a_fresh_identifier_is_assigned_at_start() {
    let mut coordinator = two_machines();
    let plan = coordinator
        .start(1, None, s("/w"), vec![node("a", "m1")], DaemonCommunicationConfig::Shmem)
        .unwrap();
    let uuid = plan.command.dataflow_id;
    assert_eq!((uuid >> 76) & 0xf, 4);
    assert_eq!(plan.targets, vec![s("m1")]);
    let done = coordinator.spawn_result(s("m1"), uuid, Ok(()));
    assert_eq!(done.reply, Some((1, StartDataflowResult::Started { uuid })));
}

#[test]
fn stop_by_name_is_refused_when_two_dataflows_share_the_name() {
    let mut coordinator = two_machines();
    running(&mut coordinator, 21, Some("twin"));
    running(&mut coordinator, 22, Some("other"));
    running(&mut coordinator, 23, Some("twin"));
    assert_eq!(coordinator.running_named(&s("twin")), vec![21, 23]);
    assert_eq!(
        coordinator.stop_by_name(7, &s("twin")).map(|plan| plan.uuid),
        Err(StopError::AmbiguousName { uuids: vec![21, 23] })
    );
    assert_eq!(
        coordinator.stop_by_name(7, &s("nobody")).map(|plan| plan.uuid),
        Err(StopError::NotFound)
    );
    let plan = coordinator.stop_by_name(7, &s("other")).unwrap();
    assert_eq!(plan.uuid, 22);
    assert_eq!(plan.targets, vec![s("m1"), s("m2")]);
    assert_eq!(
        coordinator.stop_by_name(8, &s("other")).map(|plan| plan.uuid),
        Err(StopError::AlreadyStopping)
    );
    // once one twin is over, the name is no longer ambiguous
    coordinator.daemon_done(&s("m1"), 21, Ok(()));
    coordinator.daemon_done(&s("m2"), 21, Ok(()));
    assert_eq!(coordinator.stop_by_name(7, &s("twin")).map(|plan| plan.uuid), Ok(23));
}

#[test]
fn a_stop_succeeds_only_if_every_daemon_does() {
    let mut coordinator = two_machines();
    running(&mut coordinator, 31, None);
    running(&mut coordinator, 32, None);
    let plan = coordinator.stop(5, 31).unwrap();
    assert_eq!(plan.targets, vec![s("m1"), s("m2")]);
    assert!(coordinator.daemon_done(&s("m2"), 31, Err(s("node b crashed"))).is_none());
    assert!(coordinator.daemon_done(&s("m2"), 31, Ok(())).is_none());
    let ended = coordinator.daemon_done(&s("m1"), 31, Err(s("later"))).unwrap();
    assert_eq!(ended.client, Some(5));
    assert_eq!(ended.result, DataflowResult { uuid: 31, outcome: Err(s("node b crashed")) });
    assert!(!ended.result.is_ok());
    coordinator.stop(6, 32).unwrap();
    coordinator.daemon_done(&s("m1"), 32, Ok(()));
    let ended = coordinator.daemon_done(&s("m2"), 32, Ok(())).unwrap();
    assert_eq!(ended.client, Some(6));
    assert_eq!(ended.result, DataflowResult { uuid: 32, outcome: Ok(()) });
    let statuses: Vec<DataflowStatus> =
        coordinator.list().0.into_iter().map(|entry| entry.status).collect();
    assert_eq!(statuses, vec![DataflowStatus::Failed, DataflowStatus::Finished]);
    assert_eq!(coordinator.stop(5, 31).map(|_| ()), Err(StopError::NotFound));
    assert!(coordinator.daemon_done(&s("m1"), 31, Ok(())).is_none());
    assert!(coordinator.daemon_done(&s("m1"), 99, Ok(())).is_none());
}

#[test]
fn a_dataflow_that_runs_to_its_end_is_finished_without_a_client() {
    let mut coordinator = two_machines();
    running(&mut coordinator, 41, None);
    assert!(coordinator.daemon_done(&s("m1"), 41, Ok(())).is_none());
    // a stop that comes late waits for the daemons that are left
    let plan = coordinator.stop(5, 41).unwrap();
    assert_eq!(plan.targets, vec![s("m2")]);
    let ended = coordinator.daemon_done(&s("m2"), 41, Ok(())).unwrap();
    assert_eq!(ended.client, Some(5));
    assert!(ended.result.is_ok());
}

#[test]
fn a_lost_daemon_fails_the_dataflows_that_it_ran() {
    let mut coordinator = two_machines();
    coordinator
        .start_with(50, 1, None, s("/w"), vec![node("a", "m1")], DaemonCommunicationConfig::Tcp)
        .unwrap();
    coordinator.spawn_result(s("m1"), 50, Ok(()));
    running(&mut coordinator, 51, None);
    coordinator.stop(9, 51).unwrap();
    coordinator.daemon_done(&s("m1"), 51, Ok(()));
    start(&mut coordinator, 52, None, 2);
    assert_eq!(coordinator.starts_awaiting(&s("m2")), vec![52]);
    let ended = coordinator.daemon_lost(&s("m2"), &s("watchdog timeout"));
    assert_eq!(ended.len(), 1);
    assert_eq!(ended[0].client, Some(9));
    assert_eq!(ended[0].result, DataflowResult { uuid: 51, outcome: Err(s("watchdog timeout")) });
    assert_eq!(coordinator.daemon_count(), 1);
    let statuses: Vec<DataflowStatus> =
        coordinator.list().0.into_iter().map(|entry| entry.status).collect();
    assert_eq!(statuses, vec![DataflowStatus::Running, DataflowStatus::Failed]);
    let aborted = coordinator.spawn_result(s("m2"), 52, Err(s("watchdog timeout")));
    assert_eq!(aborted.reply, Some((2, StartDataflowResult::Error(s("watchdog timeout")))));
}

#[test]
fn destroy_waits_for_every_daemon() {
    let mut coordinator = Coordinator::new();
    let plan = coordinator.destroy(1);
    assert!(plan.finished);
    assert_eq!(plan.targets, Vec::<String>::new());
    let mut coordinator = two_machines();
    let plan = coordinator.destroy(8);
    assert!(!plan.finished);
    assert_eq!(plan.targets, vec![s("m1"), s("m2")]);
    assert_eq!(coordinator.destroy_result(&s("m2")), None);
    assert_eq!(coordinator.destroy_result(&s("m2")), None);
    assert_eq!(coordinator.destroy_result(&s("m9")), None);
    assert_eq!(coordinator.destroy_result(&s("m1")), Some(8));
    assert_eq!(coordinator.destroy_result(&s("m1")), None);
}

#[test]
fn trackers_gather_answers_in_any_order() {
    let mut start = StartTracker::new(1, None, 2, vec![s("x"), s("y")]);
    assert_eq!(start.uuid(), 1);
    assert_eq!(start.client(), 2);
    assert!(start.awaits(&s("x")));
    let step = start.record(s("y"), Err(s("boom")));
    assert!(!step.settled);
    assert!(start.aborted());
    assert_eq!(step.reply, Some(StartDataflowResult::Error(s("boom"))));
    let step = start.record(s("x"), Err(s("bang")));
    assert!(step.settled);
    assert_eq!(step.reply, None);
    assert_eq!(step.stop, Vec::<String>::new());
    assert_eq!(start.finish(), (None, vec![]));

    let mut done = CompletionTracker::new(4, vec![s("x"), s("y")]);
    assert_eq!(done.uuid(), 4);
    assert_eq!(done.waiting(), vec![s("x"), s("y")]);
    assert_eq!(done.record(&s("z"), Ok(())), None);
    assert_eq!(done.record(&s("y"), Ok(())), None);
    assert!(!done.awaits(&s("y")));
    assert_eq!(done.record(&s("x"), Ok(())), Some(DataflowResult { uuid: 4, outcome: Ok(()) }));
}

#[test]
fn a_dataflow_is_spawned_on_the_default_daemon() {
    let runtime = ResolvedNode {
        id: NodeId::new("ops".to_string()),
        machine: String::new(),
        run_config: NodeRunConfig { inputs: vec![], outputs: vec![] },
        kind: CoreNodeKind::Runtime { operators: vec![] },
    };
    let connections = vec![s("")];
    let missing = spawn_dataflow_as(
        1,
        s("/w"),
        vec![node("a", ""), runtime.clone()],
        false,
        &connections,
        DaemonCommunicationConfig::Tcp,
    );
    assert_eq!(missing.map(|spawned| spawned.uuid), Err(RunError::RuntimeMissing));
    let unconnected = spawn_dataflow_as(
        1,
        s("/w"),
        vec![node("a", "")],
        false,
        &vec![s("m1")],
        DaemonCommunicationConfig::Tcp,
    );
    assert_eq!(unconnected.map(|spawned| spawned.uuid), Err(RunError::NoDaemonConnection));
    let spawned = spawn_dataflow_as(
        0x67e55044_10b1_426f_9247_bb680e5fe0c8,
        s("/w"),
        vec![node("a", ""), runtime],
        true,
        &connections,
        DaemonCommunicationConfig::Tcp,
    )
    .unwrap();
    assert_eq!(spawned.topic_prefix, "67e55044-10b1-426f-9247-bb680e5fe0c8");
    assert_eq!(spawned.command.dataflow_id, spawned.uuid);
    assert_eq!(spawned.command.nodes.len(), 2);
    assert_eq!(spawned.command.working_dir, "/w");
    let fresh = spawn_dataflow(
        s("/w"),
        vec![node("a", "")],
        false,
        &connections,
        DaemonCommunicationConfig::Tcp,
    )
    .unwrap();
    assert_eq!((fresh.uuid >> 62) & 0x3, 2);
    assert_eq!(fresh.command.dataflow_id, fresh.uuid);
}

#[test]
fn the_first_failed_task_fails_the_dataflow() {
    assert_eq!(await_tasks(vec![]), Ok(()));
    assert_eq!(
        await_tasks(vec![TaskOutcome::Joined(Ok(())), TaskOutcome::Joined(Ok(()))]),
        Ok(())
    );
    assert_eq!(
        await_tasks(vec![
            TaskOutcome::Joined(Ok(())),
            TaskOutcome::Joined(Err(s("exit 3"))),
            TaskOutcome::JoinFailed(s("panicked")),
        ]),
        Err(RunError::NodeFailed(s("exit 3")))
    );
    assert_eq!(
        await_tasks(vec![TaskOutcome::JoinFailed(s("panicked")), TaskOutcome::Joined(Err(s("x")))]),
        Err(RunError::JoinFailed(s("panicked")))
    );
}

#[test]
fn refusals_are_told_in_words() {
    assert_eq!(StartError::NoDaemon.message(), "no daemon connection");
    assert_eq!(
        StartError::NoDaemonFor { node: 12 }.message(),
        "no daemon is connected for the machine of node 12"
    );
    assert_eq!(StopError::NotFound.message(), "no running dataflow found");
    assert_eq!(
        StopError::AmbiguousName { uuids: vec![0x67e55044_10b1_426f_9247_bb680e5fe0c8, 2] }
            .message(),
        "the name belongs to several dataflows: \
         67e55044-10b1-426f-9247-bb680e5fe0c8, 00000000-0000-0000-0000-000000000002"
    );
    assert_eq!(
        StopError::AmbiguousName { uuids: vec![] }.message(),
        "the name belongs to several dataflows: "
    );
}

#[test]
fn a_daemon_that_stays_silent_is_given_up() {
    let mut watchdog = dora_core::coordinator::Watchdog::new(30_000);
    watchdog.hear(s("m1"), 1_000);
    watchdog.hear(s("m2"), 2_000);
    watchdog.hear(s("m3"), 3_000);
    assert_eq!(watchdog.silent(31_000), Vec::<String>::new());
    assert_eq!(watchdog.silent(31_001), vec![s("m1")]);
    watchdog.hear(s("m1"), 31_001);
    assert_eq!(watchdog.silent(33_500), vec![s("m2"), s("m3")]);
    watchdog.forget(&s("m2"));
    assert_eq!(watchdog.silent(33_500), vec![s("m3")]);
    assert_eq!(watchdog.silent(0), Vec::<String>::new());
    let mut strict = dora_core::coordinator::Watchdog::new(u64::MAX);
    strict.hear(s("m"), 5);
    assert_eq!(strict.silent(u64::MAX), Vec::<String>::new());
}

#[test]
fn destroy_can_give_up_waiting() {
    let mut coordinator = two_machines();
    assert_eq!(coordinator.destroy_timeout(), None);
    coordinator.destroy(8);
    assert_eq!(coordinator.destroy_result(&s("m2")), None);
    assert_eq!(coordinator.destroy_timeout(), Some(8));
    assert_eq!(coordinator.destroy_timeout(), None);
    assert_eq!(coordinator.destroy_result(&s("m1")), None);
}

#[test]
fn the_coordinator_knows_which_daemons_run_a_dataflow() {
    let mut coordinator = two_machines();
    running(&mut coordinator, 61, None);
    coordinator
        .start_with(62, 1, None, s("/w"), vec![node("a", "m2")], DaemonCommunicationConfig::Tcp)
        .unwrap();
    assert_eq!(coordinator.daemons_of(61), Some(vec![s("m1"), s("m2")]));
    assert_eq!(coordinator.daemons_of(62), None);
    coordinator.spawn_result(s("m2"), 62, Ok(()));
    assert_eq!(coordinator.daemons_of(62), Some(vec![s("m2")]));
    assert_eq!(coordinator.daemons_of(63), None);
}

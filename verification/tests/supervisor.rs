use dora_core::config::{NodeId, NodeRunConfig};
use dora_core::daemon_messages::DaemonCoordinatorReply;
use dora_core::descriptor::{CoreNodeKind, OperatorDefinition, ResolvedNode};
use dora_core::supervisor::{Finished, Launch, NodeStatus, Supervisor};
use dora_core::topics::GracePeriod;

fn custom(name: &str) -> ResolvedNode {
    ResolvedNode {
        id: NodeId::new(name.to_string()),
        machine: String::new(),
        run_config: NodeRunConfig { inputs: vec![], outputs: vec![] },
        kind: CoreNodeKind::Custom { source: "bin".to_string(), args: None },
    }
}

fn hosted(name: &str) -> ResolvedNode {
    ResolvedNode {
        kind: CoreNodeKind::Runtime {
            operators: vec![OperatorDefinition {
                id: dora_core::config::OperatorId("op".to_string()),
                source: "op.so".to_string(),
            }],
        },
        ..custom(name)
    }
}

fn s(text: &str) -> String {
    text.to_string()
}

#[test]
fn a_node_that_ignores_stop_is_killed_when_the_grace_period_is_over() {
    let (mut supervisor, launches) = Supervisor::spawn(&vec![custom("stubborn")]);
    assert_eq!(launches, vec![Launch { node: 0, runtime: false }]);
    assert_eq!(
        supervisor.launched(0, Ok(())),
        Some(DaemonCoordinatorReply::SpawnResult(Ok(())))
    );
    assert!(!supervisor.stopping());
    let grace = GracePeriod { secs: 0, nanos: 500_000_000 };
    assert_eq!(supervisor.stop(1_000, Some(grace), 10_000), Some(1_500));
    assert!(supervisor.stopping());
    assert_eq!(supervisor.stop(1_100, None, 10_000), None);
    assert_eq!(supervisor.timer_fired(1_000), vec![]);
    assert_eq!(supervisor.timer_fired(1_499), vec![]);
    assert_eq!(supervisor.timer_fired(1_500), vec![0]);
    assert_eq!(supervisor.timer_fired(1_600), vec![]);
    assert_eq!(supervisor.status(0), Some(NodeStatus::Running));
    assert_eq!(
        supervisor.exited(0, false, false, s("killed")),
        Some(Finished { result: Ok(()), forced: true })
    );
    assert_eq!(supervisor.status(0), Some(NodeStatus::Exited));
    assert_eq!(supervisor.exited(0, true, false, s("again")), None);
}

#[test]
fn the_grace_period_defaults_and_saturates() {
    let (mut supervisor, _) = Supervisor::spawn(&vec![custom("a")]);
    assert_eq!(supervisor.stop(7, None, 10_000), Some(10_007));
    let (mut supervisor, _) = Supervisor::spawn(&vec![custom("a")]);
    assert_eq!(supervisor.stop(u64::MAX - 5, None, 10), Some(u64::MAX));
    assert_eq!(supervisor.timer_fired(u64::MAX - 1), vec![]);
    assert_eq!(supervisor.timer_fired(u64::MAX), vec![0]);
}

#[test]
fn a_spawn_succeeds_only_if_every_launch_does() {
    let nodes = vec![custom("a"), hosted("b"), custom("c")];
    let (mut supervisor, launches) = Supervisor::spawn(&nodes);
    assert_eq!(
        launches,
        vec![
            Launch { node: 0, runtime: false },
            Launch { node: 1, runtime: true },
            Launch { node: 2, runtime: false },
        ]
    );
    assert_eq!(supervisor.node_id(1), Some(NodeId::new("b".to_string())));
    assert_eq!(supervisor.node_id(3), None);
    assert_eq!(supervisor.status(2), Some(NodeStatus::Launching));
    assert_eq!(supervisor.launched(1, Err(s("no runtime"))), None);
    assert_eq!(supervisor.launched(1, Ok(())), None);
    assert_eq!(supervisor.launched(7, Ok(())), None);
    assert_eq!(supervisor.launched(2, Err(s("no binary"))), None);
    assert_eq!(
        supervisor.launched(0, Ok(())),
        Some(DaemonCoordinatorReply::SpawnResult(Err(s("no runtime"))))
    );
    assert_eq!(supervisor.status(1), Some(NodeStatus::Unlaunched));
    assert_eq!(
        supervisor.exited(0, true, false, s("done")),
        Some(Finished { result: Ok(()), forced: false })
    );
}

#[test]
fn a_dataflow_ends_with_its_first_failure() {
    let nodes = vec![custom("a"), custom("b"), custom("c")];
    let (mut supervisor, _) = Supervisor::spawn(&nodes);
    for i in 0..3 {
        supervisor.launched(i, Ok(()));
    }
    // early exit before any stop is a failure even with a clean status
    assert_eq!(supervisor.exited(1, true, true, s("b left early")), None);
    assert_eq!(supervisor.exited(0, false, false, s("a crashed")), None);
    assert_eq!(
        supervisor.exited(2, true, false, s("fine")),
        Some(Finished { result: Err(s("b left early")), forced: false })
    );
    assert_eq!(supervisor.watchdog(), DaemonCoordinatorReply::WatchdogAck);
}

#[test]
fn leaving_after_a_stop_is_no_failure() {
    let nodes = vec![custom("a"), custom("b")];
    let (mut supervisor, _) = Supervisor::spawn(&nodes);
    supervisor.launched(0, Ok(()));
    supervisor.launched(1, Ok(()));
    supervisor.stop(0, None, 100);
    assert_eq!(supervisor.exited(0, true, true, s("left")), None);
    assert_eq!(supervisor.timer_fired(100), vec![1]);
    assert_eq!(
        supervisor.exited(1, false, true, s("killed")),
        Some(Finished { result: Ok(()), forced: true })
    );
}

#[test]
fn the_end_of_a_stopped_dataflow_answers_the_stop() {
    let ended = Finished { result: Err(s("node a crashed")), forced: false };
    assert_eq!(
        ended.stop_reply(),
        DaemonCoordinatorReply::StopResult(Err(s("node a crashed")))
    );
    let ended = Finished { result: Ok(()), forced: true };
    assert_eq!(ended.stop_reply(), DaemonCoordinatorReply::StopResult(Ok(())));
}

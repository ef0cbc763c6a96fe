use dora_core::config::{DataId, InputMapping, NodeId, NodeRunConfig};
use dora_core::daemon::{Daemon, Handled};
use dora_core::daemon_messages::{
    DaemonCommunicationConfig, DaemonReply, DaemonRequest, Data, DropToken, Metadata,
    NodeDropEvent, NodeEvent, SharedMemoryId, SpawnDataflowNodes,
};
use dora_core::dataflow::{split_by_machine, DaemonError, RunningDataflow, SendOutcome};
use dora_core::descriptor::{CoreNodeKind, ResolvedNode};
use dora_core::ledger::{ForcedAck, LedgerError};
use dora_core::session::{NodeSession, SessionState};

fn nid(name: &str) -> NodeId {
    NodeId::new(name.to_string())
}

fn did(name: &str) -> DataId {
    DataId::new(name.to_string())
}

fn custom(name: &str, machine: &str, inputs: Vec<(&str, &str, &str)>, outputs: Vec<&str>) -> ResolvedNode {
    ResolvedNode {
        id: nid(name),
        machine: machine.to_string(),
        run_config: NodeRunConfig {
            inputs: inputs
                .into_iter()
                .map(|(id, source, output)| InputMapping {
                    id: did(id),
                    source: nid(source),
                    output: did(output),
                })
                .collect(),
            outputs: outputs.into_iter().map(did).collect(),
        },
        kind: CoreNodeKind::Custom { source: format!("{name}.bin"), args: None },
    }
}

fn meta() -> Metadata {
    Metadata { raw: vec![1, 2] }
}

fn producer_and_consumer() -> RunningDataflow {
    let a = custom("a", "", vec![], vec!["out1"]);
    let b = custom("b", "", vec![("out1", "a", "out1")], vec![]);
    let mut dataflow = RunningDataflow::new(1, String::new(), DaemonCommunicationConfig::Shmem, vec![a, b], vec![]).unwrap();
    for name in ["a", "b"] {
        assert_eq!(dataflow.register(&nid(name)), Ok(()));
        assert_eq!(dataflow.subscribe(&nid(name)), Ok(()));
    }
    dataflow
}

fn shared(region: SharedMemoryId, len: usize, token: DropToken) -> Option<Data> {
    Some(Data::SharedMemory { shared_memory_id: region, len, drop_token: token })
}

#[test]
fn shared_memory_message_reaches_the_consumer_and_is_released_on_report() {
    let mut dataflow = producer_and_consumer();
    let region = dataflow.prepare_message(&nid("a"), 1024).unwrap();
    let token = DropToken(42);
    let sent = dataflow.send_message(&nid("a"), &did("out1"), &meta(), &shared(region, 1024, token));
    assert_eq!(sent, Ok(SendOutcome { forward: false, released: None }));
    let first = dataflow.next_event(&nid("b"), &vec![]).unwrap();
    assert_eq!(
        first.events,
        vec![NodeEvent::Input {
            id: did("out1"),
            metadata: meta(),
            data: shared(region, 1024, token),
        }]
    );
    assert_eq!(first.released, vec![]);
    assert!(!dataflow.is_released(region));
    let second = dataflow.next_event(&nid("b"), &vec![token]).unwrap();
    assert_eq!(second.events, vec![]);
    assert_eq!(second.released, vec![region]);
    assert!(dataflow.is_released(region));
    assert_eq!(
        dataflow.next_finished_drop_tokens(&nid("a")),
        Ok(vec![NodeDropEvent::OutputDropped { drop_token: token }])
    );
    assert_eq!(dataflow.next_finished_drop_tokens(&nid("a")), Ok(vec![]));
}

#[test]
fn events_are_fetched_in_the_order_in_which_they_were_queued() {
    let mut dataflow = producer_and_consumer();
    let send = |dataflow: &mut RunningDataflow, byte: u8| {
        dataflow
            .send_message(&nid("a"), &did("out1"), &meta(), &Some(Data::Vec(vec![byte])))
            .unwrap();
    };
    let input = |byte: u8| NodeEvent::Input {
        id: did("out1"),
        metadata: meta(),
        data: Some(Data::Vec(vec![byte])),
    };
    send(&mut dataflow, 1);
    send(&mut dataflow, 2);
    assert_eq!(dataflow.waiting(&nid("b")), Some(2));
    let first = dataflow.next_event(&nid("b"), &vec![]).unwrap().events;
    send(&mut dataflow, 3);
    let second = dataflow.next_event(&nid("b"), &vec![]).unwrap().events;
    send(&mut dataflow, 4);
    send(&mut dataflow, 5);
    send(&mut dataflow, 6);
    let third = dataflow.next_event(&nid("b"), &vec![]).unwrap().events;
    let fourth = dataflow.next_event(&nid("b"), &vec![]).unwrap().events;
    assert_eq!(first, vec![input(1), input(2)]);
    assert_eq!(second, vec![input(3)]);
    assert_eq!(third, vec![input(4), input(5), input(6)]);
    assert_eq!(fourth, vec![]);
}

#[test]
fn a_node_that_disconnects_has_its_tokens_released_and_disturbs_nobody() {
    let a = custom("a", "", vec![], vec!["out1"]);
    let b = custom("b", "", vec![("in", "a", "out1")], vec!["res"]);
    let c = custom("c", "", vec![("in", "a", "out1"), ("res", "b", "res")], vec![]);
    let mut dataflow = RunningDataflow::new(7, String::new(), DaemonCommunicationConfig::Shmem, vec![a, b, c], vec![]).unwrap();
    for name in ["a", "b", "c"] {
        dataflow.register(&nid(name)).unwrap();
        dataflow.subscribe(&nid(name)).unwrap();
    }
    let mut regions = vec![];
    for i in 0..3u128 {
        let region = dataflow.prepare_message(&nid("a"), 16).unwrap();
        dataflow
            .send_message(&nid("a"), &did("out1"), &meta(), &shared(region, 16, DropToken(100 + i)))
            .unwrap();
        regions.push(region);
    }
    // c is done with all three; b has not even fetched them
    let fetched = dataflow
        .next_event(&nid("c"), &vec![DropToken(100), DropToken(101), DropToken(102)])
        .unwrap();
    assert_eq!(fetched.events.len(), 3);
    assert_eq!(fetched.released, vec![]);
    let gone = dataflow.event_stream_dropped(&nid("b")).unwrap();
    assert!(gone.early);
    assert_eq!(
        gone.forced,
        vec![
            ForcedAck { region: regions[0], token: DropToken(100), released: true },
            ForcedAck { region: regions[1], token: DropToken(101), released: true },
            ForcedAck { region: regions[2], token: DropToken(102), released: true },
        ]
    );
    for region in regions {
        assert!(dataflow.is_released(region));
    }
    assert_eq!(dataflow.session_state(&nid("b")), Some(SessionState::Closed));
    assert_eq!(dataflow.session_state(&nid("a")), Some(SessionState::Subscribed));
    assert_eq!(dataflow.session_state(&nid("c")), Some(SessionState::Subscribed));
    // a had only learned at subscription that it has no inputs
    assert_eq!(
        dataflow.next_event(&nid("a"), &vec![]).unwrap().events,
        vec![NodeEvent::AllInputsClosed]
    );
    // c learns that the input from b is closed, and nothing else
    assert_eq!(
        dataflow.next_event(&nid("c"), &vec![]).unwrap().events,
        vec![NodeEvent::InputClosed { id: did("res") }]
    );
    assert_eq!(
        dataflow.event_stream_dropped(&nid("b")).map(|_| ()),
        Err(DaemonError::ProtocolError)
    );
}

#[test]
fn requests_are_refused_for_the_reason_that_comes_first() {
    let a = custom("a", "", vec![], vec!["out1"]);
    let mut dataflow = RunningDataflow::new(1, String::new(), DaemonCommunicationConfig::Shmem, vec![a], vec![]).unwrap();
    assert_eq!(dataflow.register(&nid("x")), Err(DaemonError::UnknownNode));
    assert_eq!(dataflow.subscribe(&nid("a")), Err(DaemonError::ProtocolError));
    assert_eq!(
        dataflow.send_message(&nid("a"), &did("out1"), &meta(), &None),
        Err(DaemonError::ProtocolError)
    );
    assert_eq!(dataflow.next_event(&nid("a"), &vec![]).map(|_| ()), Err(DaemonError::ProtocolError));
    assert_eq!(dataflow.register(&nid("a")), Ok(()));
    assert_eq!(dataflow.register(&nid("a")), Err(DaemonError::ProtocolError));
    assert_eq!(dataflow.session_state(&nid("a")), Some(SessionState::Registered));
    assert_eq!(
        dataflow.send_message(&nid("a"), &did("nope"), &meta(), &None),
        Err(DaemonError::UnknownOutput)
    );
    assert_eq!(
        dataflow.send_message(
            &nid("a"),
            &did("out1"),
            &meta(),
            &shared(SharedMemoryId(5), 1, DropToken(1))
        ),
        Err(DaemonError::Ledger(LedgerError::UnknownRegion))
    );
    assert_eq!(
        dataflow.close_outputs(&nid("a"), &vec![did("out1"), did("nope")]),
        Err(DaemonError::UnknownOutput)
    );
    assert_eq!(dataflow.session_state(&nid("zz")), None);
    let twins = RunningDataflow::new(
        1,
        String::new(),
        DaemonCommunicationConfig::Shmem,
        vec![custom("a", "", vec![], vec![]), custom("a", "", vec![], vec![])],
        vec![],
    );
    assert!(matches!(twins, Err(DaemonError::DuplicateNode)));
}

#[test]
fn a_payload_that_nobody_receives_is_released_at_once() {
    let a = custom("a", "", vec![], vec!["out1"]);
    let b = custom("b", "", vec![("in", "a", "out1")], vec![]);
    let mut dataflow = RunningDataflow::new(1, String::new(), DaemonCommunicationConfig::Shmem, vec![a, b], vec![]).unwrap();
    dataflow.register(&nid("a")).unwrap();
    dataflow.register(&nid("b")).unwrap();
    // b has not subscribed: nothing is queued for it
    let region = dataflow.prepare_message(&nid("a"), 4).unwrap();
    let sent = dataflow.send_message(&nid("a"), &did("out1"), &meta(), &shared(region, 4, DropToken(9)));
    assert_eq!(sent, Ok(SendOutcome { forward: false, released: Some(region) }));
    assert!(dataflow.is_released(region));
    assert_eq!(dataflow.waiting(&nid("b")), Some(0));
}

#[test]
fn closing_outputs_closes_the_inputs_that_listen() {
    let a = custom("a", "", vec![], vec!["x", "y"]);
    let b = custom("b", "", vec![("one", "a", "x"), ("two", "a", "y")], vec![]);
    let mut dataflow = RunningDataflow::new(1, String::new(), DaemonCommunicationConfig::Shmem, vec![a, b], vec![]).unwrap();
    for name in ["a", "b"] {
        dataflow.register(&nid(name)).unwrap();
        dataflow.subscribe(&nid(name)).unwrap();
    }
    assert_eq!(dataflow.close_outputs(&nid("a"), &vec![did("x")]), Ok(()));
    assert_eq!(dataflow.close_outputs(&nid("a"), &vec![did("x")]), Ok(()));
    dataflow.send_message(&nid("a"), &did("x"), &meta(), &None).unwrap();
    dataflow.send_message(&nid("a"), &did("y"), &meta(), &None).unwrap();
    assert_eq!(dataflow.outputs_done(&nid("a")), Ok(()));
    assert_eq!(dataflow.session_state(&nid("a")), Some(SessionState::Draining));
    assert_eq!(
        dataflow.next_event(&nid("b"), &vec![]).unwrap().events,
        vec![
            NodeEvent::InputClosed { id: did("one") },
            NodeEvent::Input { id: did("two"), metadata: meta(), data: None },
            NodeEvent::InputClosed { id: did("two") },
            NodeEvent::AllInputsClosed,
        ]
    );
}

#[test]
fn stop_is_queued_for_every_node_that_listens() {
    let mut dataflow = producer_and_consumer();
    dataflow.stop_all();
    assert_eq!(dataflow.session_state(&nid("a")), Some(SessionState::Draining));
    assert_eq!(
        dataflow.next_event(&nid("b"), &vec![]).unwrap().events,
        vec![NodeEvent::Stop]
    );
    let gone = dataflow.event_stream_dropped(&nid("b")).unwrap();
    assert!(!gone.early);
    assert_eq!(gone.forced, vec![]);
}

#[test]
fn outputs_for_other_machines_are_forwarded_and_delivered_there() {
    let a = custom("a", "m1", vec![], vec!["out"]);
    let b = custom("b", "m2", vec![("in", "a", "out")], vec![]);
    let (here, there) = split_by_machine(vec![a, b], &"m1".to_string());
    assert_eq!(here.len(), 1);
    assert_eq!(there.len(), 1);
    let mut sender = RunningDataflow::new(1, String::new(), DaemonCommunicationConfig::Shmem, here, there).unwrap();
    sender.register(&nid("a")).unwrap();
    let sent = sender.send_message(&nid("a"), &did("out"), &meta(), &Some(Data::Vec(vec![7])));
    assert_eq!(sent, Ok(SendOutcome { forward: true, released: None }));

    let a = custom("a", "m1", vec![], vec!["out"]);
    let b = custom("b", "m2", vec![("in", "a", "out")], vec![]);
    let (here, there) = split_by_machine(vec![a, b], &"m2".to_string());
    let mut receiver = RunningDataflow::new(1, String::new(), DaemonCommunicationConfig::Shmem, here, there).unwrap();
    receiver.register(&nid("b")).unwrap();
    receiver.subscribe(&nid("b")).unwrap();
    receiver.deliver_output(&nid("a"), &did("out"), &meta(), Some(vec![7]));
    assert_eq!(
        receiver.next_event(&nid("b"), &vec![]).unwrap().events,
        vec![NodeEvent::Input { id: did("in"), metadata: meta(), data: Some(Data::Vec(vec![7])) }]
    );
}

fn spawn_command(id: u128) -> SpawnDataflowNodes {
    SpawnDataflowNodes {
        dataflow_id: id,
        working_dir: "/work".to_string(),
        nodes: vec![
            custom("a", "m1", vec![], vec!["out"]),
            custom("b", "m1", vec![("in", "a", "out")], vec![]),
            custom("c", "m2", vec![("in", "a", "out")], vec![]),
        ],
        daemon_communication: DaemonCommunicationConfig::Shmem,
    }
}

fn request(daemon: &mut Daemon, id: u128, node: &str, request: DaemonRequest) -> Handled {
    daemon.handle(id, &nid(node), request)
}

#[test]
fn a_daemon_answers_each_request_as_its_kind_demands() {
    let mut daemon = Daemon::new("0.3.0".to_string(), "m1".to_string());
    assert_eq!(daemon.spawn(spawn_command(5)), Ok(()));
    assert_eq!(daemon.spawn(spawn_command(5)), Err(DaemonError::DuplicateDataflow));
    assert_eq!(daemon.dataflow_count(), 1);
    let register = |node: &str, version: &str| DaemonRequest::Register {
        dataflow_id: 5,
        node_id: nid(node),
        dora_version: version.to_string(),
    };
    let skewed = request(&mut daemon, 5, "a", register("a", "0.2.9"));
    assert_eq!(skewed.error, Some(DaemonError::VersionMismatch));
    assert_eq!(
        skewed.reply,
        Some(DaemonReply::Result(Err(DaemonError::VersionMismatch.message())))
    );
    let unknown = request(&mut daemon, 6, "a", register("a", "0.3.0"));
    assert_eq!(unknown.error, Some(DaemonError::UnknownDataflow));
    let remote = request(&mut daemon, 5, "c", register("c", "0.3.0"));
    assert_eq!(remote.error, Some(DaemonError::UnknownNode));
    for node in ["a", "b"] {
        let done = request(&mut daemon, 5, node, register(node, "0.3.0"));
        assert_eq!(done.reply, Some(DaemonReply::Result(Ok(()))));
        let done = request(&mut daemon, 5, node, DaemonRequest::Subscribe);
        assert_eq!(done.reply, Some(DaemonReply::Result(Ok(()))));
        assert_eq!(done.error, None);
    }
    let waiting = request(&mut daemon, 5, "b", DaemonRequest::NextEvent { drop_tokens: vec![] });
    assert_eq!(waiting.reply, None);
    assert_eq!(waiting.error, None);
    let sent = request(
        &mut daemon,
        5,
        "a",
        DaemonRequest::SendMessage {
            output_id: did("out"),
            metadata: meta(),
            data: Some(Data::Vec(vec![1])),
        },
    );
    assert_eq!(sent.reply, None);
    assert!(sent.forward);
    let refused = request(
        &mut daemon,
        5,
        "a",
        DaemonRequest::SendMessage { output_id: did("zz"), metadata: meta(), data: None },
    );
    assert_eq!(refused.reply, None);
    assert_eq!(refused.error, Some(DaemonError::UnknownOutput));
    assert!(!refused.forward);
    let fetched = request(&mut daemon, 5, "b", DaemonRequest::NextEvent { drop_tokens: vec![] });
    assert_eq!(
        fetched.reply,
        Some(DaemonReply::NextEvents(vec![NodeEvent::Input {
            id: did("in"),
            metadata: meta(),
            data: Some(Data::Vec(vec![1])),
        }]))
    );
    let reported =
        request(&mut daemon, 5, "b", DaemonRequest::ReportDropTokens { drop_tokens: vec![] });
    assert_eq!(reported.reply, None);
    assert_eq!(daemon.stop_dataflow(5), Ok(()));
    assert_eq!(daemon.stop_dataflow(9), Err(DaemonError::UnknownDataflow));
    let stopped = request(&mut daemon, 5, "b", DaemonRequest::NextEvent { drop_tokens: vec![] });
    assert_eq!(stopped.reply, Some(DaemonReply::NextEvents(vec![NodeEvent::Stop])));
    let gone = request(&mut daemon, 5, "b", DaemonRequest::EventStreamDropped);
    assert_eq!(gone.reply, Some(DaemonReply::Result(Ok(()))));
    assert!(!gone.dropped.unwrap().early);
    let again = request(&mut daemon, 5, "b", DaemonRequest::OutputsDone);
    assert_eq!(again.error, Some(DaemonError::ProtocolError));
    assert_eq!(
        again.reply,
        Some(DaemonReply::Result(Err(
            "the request does not fit the state of the session".to_string()
        )))
    );
}

#[test]
fn a_session_keeps_what_is_queued_until_it_is_drained() {
    let inputs = vec![InputMapping { id: did("in"), source: nid("a"), output: did("out") }];
    let mut session = NodeSession::new(nid("b"), 3, &inputs);
    assert_eq!(session.state(), SessionState::Unregistered);
    session.queue(NodeEvent::Stop);
    assert_eq!(session.waiting(), 0);
    session.register();
    session.subscribe();
    assert!(session.accepts());
    let token = DropToken(77);
    assert!(session.deliver(&inputs, &nid("a"), &did("out"), &meta(), &shared(SharedMemoryId(0), 1, token)));
    assert!(!session.deliver(&inputs, &nid("a"), &did("other"), &meta(), &None));
    assert_eq!(session.owed_count(), 1);
    session.acknowledge(DropToken(78));
    assert_eq!(session.owed_count(), 1);
    session.acknowledge(token);
    assert_eq!(session.owed_count(), 0);
    session.request_stop();
    assert!(session.stop_requested());
    assert_eq!(session.state(), SessionState::Draining);
    let events = session.drain();
    assert_eq!(events.len(), 2);
    assert_eq!(events[1], NodeEvent::Stop);
    assert_eq!(session.waiting(), 0);
    session.close();
    assert_eq!(session.state(), SessionState::Closed);
    assert_eq!(session.node_id(), &nid("b"));
}

#[test]
fn a_dataflow_keeps_the_transport_that_it_was_spawned_with() {
    let a = custom("a", "", vec![], vec!["out"]);
    let mut dataflow = RunningDataflow::new(
        3,
        "/work".to_string(),
        DaemonCommunicationConfig::Tcp,
        vec![a],
        vec![],
    )
    .unwrap();
    dataflow.register(&nid("a")).unwrap();
    dataflow.subscribe(&nid("a")).unwrap();
    dataflow.stop_all();
    assert_eq!(dataflow.communication(), DaemonCommunicationConfig::Tcp);
    assert_eq!(dataflow.working_dir(), "/work");
    assert_eq!(dataflow.id(), 3);
}

#[test]
fn a_reload_is_told_with_the_next_events() {
    let mut dataflow = producer_and_consumer();
    let operator = dora_core::config::OperatorId("detector".to_string());
    assert_eq!(dataflow.reload(&nid("b"), Some(operator.clone())), Ok(()));
    assert_eq!(dataflow.reload(&nid("b"), None), Ok(()));
    assert_eq!(dataflow.reload(&nid("x"), None), Err(DaemonError::UnknownNode));
    assert_eq!(
        dataflow.next_event(&nid("b"), &vec![]).unwrap().events,
        vec![
            NodeEvent::Reload { operator_id: Some(operator) },
            NodeEvent::Reload { operator_id: None },
        ]
    );
}

#[test]
fn a_daemon_reserves_regions_and_relays_reloads() {
    let mut daemon = Daemon::new("0.3.0".to_string(), "m1".to_string());
    daemon.spawn(spawn_command(5)).unwrap();
    assert_eq!(daemon.prepare_message(6, &nid("a"), 8), Err(DaemonError::UnknownDataflow));
    assert_eq!(daemon.prepare_message(5, &nid("a"), 8), Err(DaemonError::ProtocolError));
    assert_eq!(
        daemon.reload(5, &nid("a"), None),
        dora_core::daemon_messages::DaemonCoordinatorReply::ReloadResult(Err(
            DaemonError::ProtocolError.message()
        ))
    );
    let register = DaemonRequest::Register {
        dataflow_id: 5,
        node_id: nid("a"),
        dora_version: "0.3.0".to_string(),
    };
    request(&mut daemon, 5, "a", register);
    request(&mut daemon, 5, "a", DaemonRequest::Subscribe);
    assert_eq!(daemon.prepare_message(5, &nid("a"), 8), Ok(SharedMemoryId(0)));
    assert_eq!(daemon.prepare_message(5, &nid("a"), 8), Ok(SharedMemoryId(1)));
    assert_eq!(
        daemon.reload(5, &nid("a"), None),
        dora_core::daemon_messages::DaemonCoordinatorReply::ReloadResult(Ok(()))
    );
    assert_eq!(
        daemon.reload(9, &nid("a"), None),
        dora_core::daemon_messages::DaemonCoordinatorReply::ReloadResult(Err(
            "no dataflow with this id is running".to_string()
        ))
    );
    let fetched = request(&mut daemon, 5, "a", DaemonRequest::NextEvent { drop_tokens: vec![] });
    assert_eq!(
        fetched.reply,
        Some(DaemonReply::NextEvents(vec![
            NodeEvent::AllInputsClosed,
            NodeEvent::Reload { operator_id: None },
        ]))
    );
    assert!(daemon.remove(5));
    assert!(!daemon.remove(5));
    assert_eq!(daemon.dataflow_count(), 0);
    assert_eq!(
        daemon.deliver_output(5, &nid("a"), &did("out"), &meta(), None),
        Err(DaemonError::UnknownDataflow)
    );
}

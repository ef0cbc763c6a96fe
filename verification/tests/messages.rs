use dora_core::config::{DataId, InputMapping, NodeId, NodeRunConfig};
use dora_core::daemon_messages::{
    copy_bytes, DaemonCommunication, DaemonCommunicationConfig, DaemonRequest, Data, DropToken,
    InputData, Metadata, NodeConfig, NodeEvent, SharedMemoryId, SharedMemoryInput,
};
use dora_core::descriptor::{CoreNodeKind, ResolvedNode};
use dora_core::topics::{
    control_socket_addr, listen_wildcard, localhost, DataflowId, DataflowList,
    DataflowListEntry, DataflowStatus, GracePeriod, IpAddress, SocketAddress,
    DORA_COORDINATOR_PORT_DEFAULT, MANUAL_STOP,
};

#[test]
fn only_fire_and_forget_requests_get_no_reply() {
    let meta = Metadata { raw: vec![] };
    let all = vec![
        (
            DaemonRequest::Register {
                dataflow_id: 1,
                node_id: NodeId::new("a".to_string()),
                dora_version: "0.1".to_string(),
            },
            true,
        ),
        (DaemonRequest::Subscribe, true),
        (
            DaemonRequest::SendMessage {
                output_id: DataId::new("o".to_string()),
                metadata: meta,
                data: None,
            },
            false,
        ),
        (DaemonRequest::CloseOutputs(vec![]), true),
        (DaemonRequest::OutputsDone, true),
        (DaemonRequest::NextEvent { drop_tokens: vec![] }, true),
        (DaemonRequest::ReportDropTokens { drop_tokens: vec![] }, false),
        (DaemonRequest::SubscribeDrop, true),
        (DaemonRequest::NextFinishedDropTokens, true),
        (DaemonRequest::EventStreamDropped, true),
    ];
    for (request, expected) in all {
        assert_eq!(request.expects_tcp_reply(), expected);
    }
}

#[test]
fn only_shared_memory_carries_a_drop_token() {
    let token = DropToken(5);
    let shared =
        Data::SharedMemory { shared_memory_id: SharedMemoryId(2), len: 9, drop_token: token };
    assert_eq!(shared.drop_token(), Some(token));
    assert_eq!(Data::Vec(vec![1, 2, 3]).drop_token(), None);
    let input = InputData::SharedMemory(SharedMemoryInput {
        shared_memory_id: SharedMemoryId(2),
        len: 9,
        drop_token: token,
    });
    assert_eq!(input.drop_token(), Some(token));
    assert_eq!(InputData::Vec(vec![]).drop_token(), None);
}

#[test]
fn generated_tokens_are_random_version_four_identifiers() {
    let a = DropToken::generate();
    let b = DropToken::generate();
    assert_ne!(a, b);
    for token in [a, b] {
        assert_eq!((token.0 >> 76) & 0xf, 4);
        assert_eq!((token.0 >> 62) & 0x3, 2);
    }
}

#[test]
fn duplicates_equal_what_they_copy() {
    let event = NodeEvent::Input {
        id: DataId::new("in".to_string()),
        metadata: Metadata { raw: vec![9, 8] },
        data: Some(Data::Vec(vec![1, 2, 3])),
    };
    assert_eq!(event.duplicate(), event);
    assert_eq!(copy_bytes(&vec![4, 5, 6]), vec![4, 5, 6]);
    let id = NodeId::new("n".to_string());
    assert_eq!(id.duplicate(), id);
    assert!(id.same(&NodeId::new("n".to_string())));
    assert!(!id.same(&NodeId::new("m".to_string())));
}

#[test]
fn tcp_is_the_default_transport() {
    assert_eq!(DaemonCommunicationConfig::default(), DaemonCommunicationConfig::Tcp);
}

#[test]
fn control_socket_is_local_port_6012() {
    assert_eq!(
        control_socket_addr(),
        SocketAddress { ip: IpAddress::V4 { a: 127, b: 0, c: 0, d: 1 }, port: 6012 }
    );
    assert_eq!(DORA_COORDINATOR_PORT_DEFAULT, 53290);
    assert_eq!(MANUAL_STOP, "dora/stop");
    assert_eq!(localhost(), IpAddress::V4 { a: 127, b: 0, c: 0, d: 1 });
    assert_eq!(listen_wildcard(), IpAddress::V4 { a: 0, b: 0, c: 0, d: 0 });
}

#[test]
fn loopback_is_127_and_colon_colon_one() {
    assert!(IpAddress::V4 { a: 127, b: 9, c: 9, d: 9 }.is_loopback());
    assert!(!IpAddress::V4 { a: 10, b: 0, c: 0, d: 1 }.is_loopback());
    assert!(IpAddress::V6 { bits: 1 }.is_loopback());
    assert!(!IpAddress::V6 { bits: 2 }.is_loopback());
}

#[test]
fn grace_period_in_milliseconds() {
    assert_eq!(GracePeriod { secs: 0, nanos: 500_000_000 }.as_millis(), 500);
    assert_eq!(GracePeriod { secs: 2, nanos: 1_999_999 }.as_millis(), 2001);
    assert_eq!(GracePeriod { secs: u64::MAX, nanos: 0 }.as_millis(), u64::MAX);
    assert_eq!(
        GracePeriod { secs: u64::MAX / 1000, nanos: 999_999_999 }.as_millis(),
        u64::MAX
    );
    assert_eq!(
        GracePeriod { secs: u64::MAX / 1000, nanos: 0 }.as_millis(),
        (u64::MAX / 1000) * 1000
    );
}

#[test]
fn dataflow_id_is_shown_with_its_name() {
    let named = DataflowId {
        uuid: 0x67e55044_10b1_426f_9247_bb680e5fe0c8,
        name: Some("camera".to_string()),
    };
    assert_eq!(named.to_text(), "[camera] 67e55044-10b1-426f-9247-bb680e5fe0c8");
    let unnamed = DataflowId { uuid: 0xab, name: None };
    assert_eq!(unnamed.to_text(), "[<unnamed>] 00000000-0000-0000-0000-0000000000ab");
    assert_eq!(named.duplicate(), named);
}

#[test]
fn active_dataflows_are_those_that_run() {
    let entry = |uuid: u128, status: DataflowStatus| DataflowListEntry {
        id: DataflowId { uuid, name: None },
        status,
    };
    let list = DataflowList(vec![
        entry(1, DataflowStatus::Running),
        entry(2, DataflowStatus::Finished),
        entry(3, DataflowStatus::Failed),
        entry(4, DataflowStatus::Running),
    ]);
    assert_eq!(
        list.get_active(),
        vec![DataflowId { uuid: 1, name: None }, DataflowId { uuid: 4, name: None }]
    );
}

#[test]
fn run_config_knows_its_outputs_and_inputs() {
    let config = NodeRunConfig {
        inputs: vec![InputMapping {
            id: DataId::new("in".to_string()),
            source: NodeId::new("a".to_string()),
            output: DataId::new("out".to_string()),
        }],
        outputs: vec![DataId::new("x".to_string()), DataId::new("y".to_string())],
    };
    assert!(config.declares_output(&DataId::new("y".to_string())));
    assert!(!config.declares_output(&DataId::new("in".to_string())));
    assert!(config.inputs[0]
        .is_fed_by(&NodeId::new("a".to_string()), &DataId::new("out".to_string())));
    assert!(!config.inputs[0]
        .is_fed_by(&NodeId::new("a".to_string()), &DataId::new("in".to_string())));
    let node = ResolvedNode {
        id: NodeId::new("r".to_string()),
        machine: String::new(),
        run_config: config,
        kind: CoreNodeKind::Runtime { operators: vec![] },
    };
    assert!(node.hosted_by_runtime());
}

#[test]
fn handles_are_named_in_base_ten() {
    assert_eq!(SharedMemoryId(0).to_text(), "0");
    assert_eq!(SharedMemoryId(1234567890).to_text(), "1234567890");
    assert_eq!(SharedMemoryId(u64::MAX).to_text(), "18446744073709551615");
    assert_eq!(SharedMemoryId::from_text("42"), Some(SharedMemoryId(42)));
    assert_eq!(SharedMemoryId::from_text("007"), Some(SharedMemoryId(7)));
    assert_eq!(SharedMemoryId::from_text("18446744073709551615"), Some(SharedMemoryId(u64::MAX)));
    assert_eq!(SharedMemoryId::from_text("18446744073709551616"), None);
    assert_eq!(SharedMemoryId::from_text("99999999999999999999999"), None);
    assert_eq!(SharedMemoryId::from_text(""), None);
    assert_eq!(SharedMemoryId::from_text("+5"), None);
    assert_eq!(SharedMemoryId::from_text("4a"), None);
    assert_eq!(SharedMemoryId::from_text("a4"), None);
    assert_eq!(SharedMemoryId::from_text("٣"), None);
}

#[test]
fn payloads_are_shown_without_their_bytes() {
    assert_eq!(Data::Vec(vec![1, 2, 3]).debug_text(), "Vec { len: 3, .. }");
    assert_eq!(Data::Vec(vec![]).debug_text(), "Vec { len: 0, .. }");
    let shared = Data::SharedMemory {
        shared_memory_id: SharedMemoryId(5),
        len: 1024,
        drop_token: DropToken(0x67e55044_10b1_426f_9247_bb680e5fe0c8),
    };
    assert_eq!(
        shared.debug_text(),
        "SharedMemory { shared_memory_id: \"5\", len: 1024, \
         drop_token: DropToken(67e55044-10b1-426f-9247-bb680e5fe0c8) }"
    );
}

#[test]
fn a_node_is_started_with_its_own_configuration() {
    let node = ResolvedNode {
        id: NodeId::new("cam".to_string()),
        machine: "m1".to_string(),
        run_config: NodeRunConfig {
            inputs: vec![InputMapping {
                id: DataId::new("tick".to_string()),
                source: NodeId::new("timer".to_string()),
                output: DataId::new("out".to_string()),
            }],
            outputs: vec![DataId::new("image".to_string())],
        },
        kind: CoreNodeKind::Custom { source: "cam".to_string(), args: None },
    };
    let reach = DaemonCommunication::Tcp { socket_addr: control_socket_addr() };
    let config = NodeConfig::for_node(9, &node, reach);
    assert_eq!(config.dataflow_id, 9);
    assert_eq!(config.node_id, node.id);
    assert_eq!(config.run_config, node.run_config);
    assert!(matches!(config.daemon_communication, DaemonCommunication::Tcp { socket_addr }
        if socket_addr == control_socket_addr()));
}

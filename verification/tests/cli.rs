use dora_core::cli::{
    destroy, get_dora_path, handle_dataflow_result, list, list_from, list_table, logs_target,
    logs_target_from, parse_dora_config, pick_for_logs, query_running_dataflows, run, start,
    start_dataflow, start_request, stop, stop_dataflow, stop_dataflow_interactive,
    stop_dataflow_request, up, validation_for, Action, Attach, CliError, Command, CommandNew,
    DaemonMode, DestroyStep, Kind, Lang, Pick, ReplyError, StopFailure, Target, UpAction,
    UpEvent, UpState, Validation,
};
use dora_core::topics::{
    ControlRequest, ControlRequestReply, DataflowId, DataflowList, DataflowListEntry,
    DataflowResult, DataflowStatus, GracePeriod, IpAddress, SocketAddress,
};

fn s(text: &str) -> String {
    text.to_string()
}

const LOCAL: IpAddress = IpAddress::V4 { a: 127, b: 0, c: 0, d: 1 };
const FAR: IpAddress = IpAddress::V4 { a: 10, b: 1, c: 2, d: 3 };
const UUID: u128 = 0x67e55044_10b1_426f_9247_bb680e5fe0c8;

#[test]
fn stop_goes_by_identifier_then_by_name_then_by_asking() {
    assert_eq!(stop(Some(3), Some(s("n"))), Target::Uuid(3));
    assert_eq!(stop(Some(3), None), Target::Uuid(3));
    assert_eq!(stop(None, Some(s("n"))), Target::Name(s("n")));
    assert_eq!(stop(None, None), Target::Choose);
}

#[test]
fn logs_take_a_text_that_reads_as_an_identifier_for_one() {
    assert_eq!(
        logs_target(Some(s("67e55044-10b1-426f-9247-bb680e5fe0c8"))),
        Target::Uuid(UUID)
    );
    assert_eq!(logs_target(Some(s("67e5504410b1426f9247bb680e5fe0c8"))), Target::Uuid(UUID));
    assert_eq!(logs_target(Some(s("camera"))), Target::Name(s("camera")));
    assert_eq!(logs_target(None), Target::Choose);
    assert_eq!(logs_target_from(Some(s("x")), Some(4)), Target::Uuid(4));
    assert_eq!(logs_target_from(None, Some(4)), Target::Choose);
}

#[test]
fn start_attaches_unless_told_otherwise() {
    assert_eq!(start(true, true), Err(CliError::AttachAndDetach));
    assert_eq!(start(true, false), Ok(Attach { attach: true, announce: false }));
    assert_eq!(start(false, true), Ok(Attach { attach: false, announce: false }));
    assert_eq!(start(false, false), Ok(Attach { attach: true, announce: true }));
    assert_eq!(validation_for(&LOCAL), Validation::Local);
    assert_eq!(validation_for(&FAR), Validation::Remote);
}

#[test]
fn commands_turn_into_actions() {
    let action = run(Command::Stop {
        uuid: None,
        name: Some(s("flow")),
        grace_duration: Some(GracePeriod { secs: 1, nanos: 0 }),
        coordinator_addr: FAR,
        coordinator_port: 6012,
    });
    assert!(matches!(
        action,
        Action::Stop {
            target: Target::Name(name),
            grace_duration: Some(GracePeriod { secs: 1, nanos: 0 }),
            coordinator: SocketAddress { ip: FAR, port: 6012 },
        } if name == "flow"
    ));
    let action = run(Command::Logs {
        dataflow: Some(s("{67e55044-10b1-426f-9247-bb680e5fe0c8}")),
        node: s("cam"),
        coordinator_addr: LOCAL,
        coordinator_port: 1,
    });
    assert!(matches!(
        action,
        Action::Logs { target: Target::Uuid(UUID), node, coordinator: SocketAddress { ip: LOCAL, port: 1 } }
            if node == "cam"
    ));
    let action = run(Command::Start {
        dataflow: s("flow.yml"),
        name: None,
        coordinator_addr: FAR,
        coordinator_port: 2,
        attach: true,
        detach: false,
        hot_reload: true,
    });
    assert!(matches!(
        action,
        Action::Start { validation: Validation::Remote, attach: true, detach: false, hot_reload: true, .. }
    ));
    let action = run(Command::Coordinator {
        interface: FAR,
        port: 5,
        control_interface: LOCAL,
        control_port: 6,
        quiet: true,
    });
    assert!(matches!(
        action,
        Action::Coordinator {
            bind: SocketAddress { ip: FAR, port: 5 },
            bind_control: SocketAddress { ip: LOCAL, port: 6 },
            quiet: true,
        }
    ));
    assert!(matches!(run(Command::Runtime), Action::Runtime));
    let action = run(Command::New {
        args: CommandNew { kind: Kind::CustomNode, lang: Lang::Cxx, name: s("n"), path: None },
        internal_create_with_path_dependencies: true,
    });
    assert!(matches!(
        action,
        Action::New {
            args: CommandNew { kind: Kind::CustomNode, lang: Lang::Cxx, .. },
            internal_create_with_path_dependencies: true,
        }
    ));
}

#[test]
fn a_daemon_runs_a_dataflow_or_connects() {
    let daemon = |coordinator: SocketAddress, run_dataflow: Option<String>| {
        match run(Command::Daemon {
            machine_id: Some(s("m1")),
            inter_daemon_addr: SocketAddress { ip: LOCAL, port: 0 },
            local_listen_port: 9,
            coordinator_addr: coordinator,
            run_dataflow,
            quiet: false,
        }) {
            Action::Daemon { mode } => mode,
            other => panic!("unexpected {other:?}"),
        }
    };
    let default = SocketAddress { ip: LOCAL, port: 0xD02A };
    assert_eq!(
        daemon(default, Some(s("f.yml"))),
        DaemonMode::RunDataflow { dataflow: s("f.yml"), coordinator_ignored: false }
    );
    assert_eq!(
        daemon(SocketAddress { ip: LOCAL, port: 1 }, Some(s("f.yml"))),
        DaemonMode::RunDataflow { dataflow: s("f.yml"), coordinator_ignored: true }
    );
    assert_eq!(
        daemon(SocketAddress { ip: FAR, port: 1 }, None),
        DaemonMode::Connect {
            coordinator: SocketAddress { ip: FAR, port: 1 },
            machine_id: Some(s("m1")),
            inter_daemon_addr: SocketAddress { ip: LOCAL, port: 0 },
            local_listen_port: 9,
            local: false,
        }
    );
    assert!(matches!(
        daemon(SocketAddress { ip: LOCAL, port: 1 }, None),
        DaemonMode::Connect { local: true, .. }
    ));
}

#[test]
fn replies_are_read_for_what_they_answer() {
    assert!(matches!(
        start_request(s("f.yml"), Some(s("n"))),
        ControlRequest::Start { dataflow_path, name: Some(name) } if dataflow_path == "f.yml" && name == "n"
    ));
    assert!(matches!(start_dataflow(ControlRequestReply::DataflowStarted { uuid: 5 }), Ok(5)));
    assert!(matches!(
        start_dataflow(ControlRequestReply::Error(s("no daemon"))),
        Err(ReplyError::Reported(text)) if text == "no daemon"
    ));
    assert!(matches!(
        start_dataflow(ControlRequestReply::DestroyOk),
        Err(ReplyError::Unexpected(ControlRequestReply::DestroyOk))
    ));
    assert!(matches!(
        stop_dataflow_request(Target::Uuid(4), None),
        Some(ControlRequest::Stop { dataflow_uuid: 4, grace_period: None })
    ));
    assert!(matches!(
        stop_dataflow_request(Target::Name(s("n")), Some(GracePeriod { secs: 2, nanos: 0 })),
        Some(ControlRequest::StopByName { name, grace_period: Some(GracePeriod { secs: 2, nanos: 0 }) })
            if name == "n"
    ));
    assert!(stop_dataflow_request(Target::Choose, None).is_none());
    let stopped = |outcome: Result<(), String>| ControlRequestReply::DataflowStopped {
        uuid: UUID,
        result: DataflowResult { uuid: UUID, outcome },
    };
    assert!(stop_dataflow(stopped(Ok(()))).is_ok());
    assert!(matches!(
        stop_dataflow(stopped(Err(s("node a crashed")))),
        Err(StopFailure::Failed(text))
            if text == "Dataflow 67e55044-10b1-426f-9247-bb680e5fe0c8 failed:\nnode a crashed"
    ));
    assert!(matches!(
        stop_dataflow(ControlRequestReply::Error(s("ambiguous"))),
        Err(StopFailure::Refused(ReplyError::Reported(text))) if text == "ambiguous"
    ));
    assert!(matches!(
        stop_dataflow(ControlRequestReply::DataflowStarted { uuid: 1 }),
        Err(StopFailure::Refused(ReplyError::Unexpected(_)))
    ));
    assert!(matches!(
        query_running_dataflows(ControlRequestReply::DataflowList(DataflowList(vec![]))),
        Ok(DataflowList(list)) if list.is_empty()
    ));
    assert!(matches!(
        query_running_dataflows(ControlRequestReply::Error(s("e"))),
        Err(ReplyError::Reported(_))
    ));
    assert!(matches!(
        query_running_dataflows(ControlRequestReply::DestroyOk),
        Err(ReplyError::Unexpected(_))
    ));
}

#[test]
fn a_failed_dataflow_fails_the_command() {
    let result = |outcome| DataflowResult { uuid: 1, outcome };
    assert_eq!(handle_dataflow_result(result(Ok(())), Some(1)), Ok(()));
    assert_eq!(
        handle_dataflow_result(result(Err(s("boom"))), None),
        Err(s("Dataflow failed:\nboom"))
    );
    assert_eq!(
        handle_dataflow_result(result(Err(s("boom"))), Some(0xff)),
        Err(s("Dataflow 00000000-0000-0000-0000-0000000000ff failed:\nboom"))
    );
}

fn entries() -> DataflowList {
    DataflowList(vec![
        DataflowListEntry {
            id: DataflowId { uuid: UUID, name: Some(s("alpha")) },
            status: DataflowStatus::Running,
        },
        DataflowListEntry { id: DataflowId { uuid: 1, name: None }, status: DataflowStatus::Failed },
        DataflowListEntry {
            id: DataflowId { uuid: 2, name: Some(s("b")) },
            status: DataflowStatus::Finished,
        },
    ])
}

#[test]
fn the_list_is_a_table_with_tabs() {
    assert_eq!(list_table(&DataflowList(vec![])), "UUID\tName\tStatus\n");
    assert_eq!(
        list_table(&entries()),
        "UUID\tName\tStatus\n\
         67e55044-10b1-426f-9247-bb680e5fe0c8\talpha\tRunning\n\
         00000000-0000-0000-0000-000000000001\t\tFailed\n\
         00000000-0000-0000-0000-000000000002\tb\tSucceeded\n"
    );
}

#[test]
fn the_list_is_shown_in_aligned_columns() {
    let expected = [
        "UUID                                  Name   Status",
        "67e55044-10b1-426f-9247-bb680e5fe0c8  alpha  Running",
        "00000000-0000-0000-0000-000000000001         Failed",
        "00000000-0000-0000-0000-000000000002  b      Succeeded",
        "",
    ]
    .join("\n");
    assert_eq!(list(&entries()), Some(expected));
    assert_eq!(list(&DataflowList(vec![])), Some(s("UUID  Name  Status\n")));
    assert_eq!(list_from(None), None);
    assert_eq!(list_from(Some(vec![0xff, 0xfe])), None);
    assert_eq!(list_from(Some("héllo".as_bytes().to_vec())), Some(s("héllo")));
}

#[test]
fn a_dataflow_is_picked_where_none_is_named() {
    let id = |uuid: u128| DataflowId { uuid, name: None };
    assert_eq!(pick_for_logs(vec![]), Err(CliError::NothingRuns));
    assert_eq!(pick_for_logs(vec![id(1)]), Ok(Pick::Only(id(1))));
    assert_eq!(pick_for_logs(vec![id(1), id(2)]), Ok(Pick::Ask(vec![id(1), id(2)])));
    assert_eq!(stop_dataflow_interactive(vec![]), Pick::Nothing);
    assert_eq!(stop_dataflow_interactive(vec![id(1)]), Pick::Ask(vec![id(1)]));
}

#[test]
fn the_configuration_is_read_from_the_given_path_or_the_default_file() {
    assert_eq!(parse_dora_config(Some(s("my.yml")), true), Some(s("my.yml")));
    assert_eq!(parse_dora_config(Some(s("my.yml")), false), Some(s("my.yml")));
    assert_eq!(parse_dora_config(None, true), Some(s("dora-config.yml")));
    assert_eq!(parse_dora_config(None, false), None);
    assert!(get_dora_path(Some(&s("dora"))));
    assert!(!get_dora_path(Some(&s("dora-cli"))));
    assert!(!get_dora_path(None));
}

#[test]
fn up_starts_what_is_missing_and_gives_up_on_the_daemon_after_21_askings() {
    assert_eq!(
        up(UpState::Probing, UpEvent::Connected(true)),
        (UpState::CheckingDaemon, UpAction::AskDaemon)
    );
    assert_eq!(
        up(UpState::Probing, UpEvent::Connected(false)),
        (UpState::AwaitingCoordinator, UpAction::StartCoordinator)
    );
    assert_eq!(
        up(UpState::AwaitingCoordinator, UpEvent::Connected(false)),
        (UpState::AwaitingCoordinator, UpAction::RetryConnect { after_ms: 50 })
    );
    assert_eq!(
        up(UpState::AwaitingCoordinator, UpEvent::Connected(true)),
        (UpState::CheckingDaemon, UpAction::AskDaemon)
    );
    assert_eq!(
        up(UpState::CheckingDaemon, UpEvent::DaemonRunning(true)),
        (UpState::Done, UpAction::Finish)
    );
    let mut state = UpState::CheckingDaemon;
    let mut action;
    (state, action) = up(state, UpEvent::DaemonRunning(false));
    assert_eq!((state, action), (UpState::AwaitingDaemon { waits: 0 }, UpAction::StartDaemon));
    let mut askings = 0;
    loop {
        (state, action) = up(state, UpEvent::DaemonRunning(false));
        askings += 1;
        if action != (UpAction::AskDaemonAgain { after_ms: 100 }) {
            break;
        }
    }
    assert_eq!(askings, 21);
    assert_eq!(state, UpState::Failed);
    assert_eq!(action, UpAction::Fail(CliError::DaemonNotConnected { waits: 21 }));
    assert_eq!(
        up(UpState::AwaitingDaemon { waits: 20 }, UpEvent::DaemonRunning(true)),
        (UpState::Done, UpAction::Finish)
    );
    assert_eq!(
        up(UpState::AwaitingDaemon { waits: u32::MAX }, UpEvent::DaemonRunning(false)),
        (UpState::Failed, UpAction::Fail(CliError::DaemonNotConnected { waits: u32::MAX }))
    );
    assert_eq!(up(UpState::Done, UpEvent::Connected(true)), (UpState::Done, UpAction::Ignore));
    assert_eq!(
        up(UpState::Probing, UpEvent::DaemonRunning(true)),
        (UpState::Probing, UpAction::Ignore)
    );
}

#[test]
fn destroy_is_sent_to_a_coordinator_that_is_reached() {
    assert!(matches!(destroy(true), DestroyStep::Send(ControlRequest::Destroy)));
    assert!(matches!(destroy(false), DestroyStep::Unreachable));
}

//! What the command-line client decides: which request a command turns
//! into, what a reply of the coordinator means, and how the steps of
//! bringing a coordinator and a daemon up follow one another.

use vstd::prelude::*;
use crate::topics::{
    ControlRequest, ControlRequestReply, DataflowId, DataflowList, DataflowListEntry,
    DataflowResult, DataflowStatus, GracePeriod, IpAddress, SocketAddress,
    DORA_COORDINATOR_PORT_DEFAULT,
};
use crate::trusted::{
    align_tabs, hyphenated, parse_uuid, push_str, tab_aligned, text_of, uuid_of_text, uuid_text,
};

verus! {

/// What `new` creates.
#[derive(Debug, Clone, Copy, PartialEq, Eq, Structural)]
pub enum Kind {
    Dataflow,
    CustomNode,
}

/// The language that `new` creates it in.
#[derive(Debug, Clone, Copy, PartialEq, Eq, Structural)]
pub enum Lang {
    Rust,
    Python,
    C,
    Cxx,
}

/// The arguments of `new`.
#[derive(Debug)]
pub struct CommandNew {
    /// The entity that should be created.
    pub kind: Kind,
    /// The programming language that should be used.
    pub lang: Lang,
    /// Desired name of the entity.
    pub name: String,
    /// Where to create the entity.
    pub path: Option<String>,
}

/// A command as the user gave it.
#[derive(Debug)]
pub enum Command {
    Check { dataflow: Option<String>, coordinator_addr: IpAddress, coordinator_port: u16 },
    Graph { dataflow: String, mermaid: bool, open: bool },
    Build { dataflow: String },
    New { args: CommandNew, internal_create_with_path_dependencies: bool },
    Up { config: Option<String> },
    Destroy { config: Option<String>, coordinator_addr: IpAddress, coordinator_port: u16 },
    Start {
        dataflow: String,
        name: Option<String>,
        coordinator_addr: IpAddress,
        coordinator_port: u16,
        attach: bool,
        detach: bool,
        hot_reload: bool,
    },
    Stop {
        uuid: Option<u128>,
        name: Option<String>,
        grace_duration: Option<GracePeriod>,
        coordinator_addr: IpAddress,
        coordinator_port: u16,
    },
    List { coordinator_addr: IpAddress, coordinator_port: u16 },
    Logs {
        dataflow: Option<String>,
        node: String,
        coordinator_addr: IpAddress,
        coordinator_port: u16,
    },
    Daemon {
        machine_id: Option<String>,
        inter_daemon_addr: SocketAddress,
        local_listen_port: u16,
        coordinator_addr: SocketAddress,
        run_dataflow: Option<String>,
        quiet: bool,
    },
    Runtime,
    Coordinator {
        interface: IpAddress,
        port: u16,
        control_interface: IpAddress,
        control_port: u16,
        quiet: bool,
    },
}

/// The arguments of the program.
#[derive(Debug)]
pub struct Args {
    pub command: Command,
}

/// The dataflow that a command is about.
#[derive(Debug, PartialEq, Eq)]
pub enum Target {
    Uuid(u128),
    Name(String),
    /// None was named: the user picks one of those that run.
    Choose,
}

/// How a descriptor is checked before its dataflow is started.
#[derive(Debug, Clone, Copy, PartialEq, Eq, Structural)]
pub enum Validation {
    /// The coordinator is on this machine: paths are checked here.
    Local,
    /// The coordinator is elsewhere: paths are left to the daemons.
    Remote,
}

/// What a daemon is started to do.
#[derive(Debug, PartialEq, Eq)]
pub enum DaemonMode {
    /// Run one dataflow here and end. `coordinator_ignored` says that a
    /// coordinator address was given that is of no use in this mode.
    RunDataflow { dataflow: String, coordinator_ignored: bool },
    /// Connect to a coordinator and wait for its orders. `local` says that
    /// the coordinator is on this machine.
    Connect {
        coordinator: SocketAddress,
        machine_id: Option<String>,
        inter_daemon_addr: SocketAddress,
        local_listen_port: u16,
        local: bool,
    },
}

/// What is to be done for a command.
#[derive(Debug)]
pub enum Action {
    Check { dataflow: Option<String>, coordinator: SocketAddress },
    Graph { dataflow: String, mermaid: bool, open: bool },
    Build { dataflow: String },
    New { args: CommandNew, internal_create_with_path_dependencies: bool },
    Up { config: Option<String> },
    Destroy { config: Option<String>, coordinator: SocketAddress },
    Start {
        dataflow: String,
        name: Option<String>,
        coordinator: SocketAddress,
        validation: Validation,
        attach: bool,
        detach: bool,
        hot_reload: bool,
    },
    Stop { target: Target, grace_duration: Option<GracePeriod>, coordinator: SocketAddress },
    List { coordinator: SocketAddress },
    Logs { target: Target, node: String, coordinator: SocketAddress },
    Daemon { mode: DaemonMode },
    Runtime,
    Coordinator { bind: SocketAddress, bind_control: SocketAddress, quiet: bool },
}

/// The dataflow that `stop` is about: the identifier if one is given, else
/// the name if one is given, else the user's pick.
pub open spec fn stop_target(uuid: Option<u128>, name: Option<String>) -> Target {
    match (uuid, name) {
        (Some(uuid), _) => Target::Uuid(uuid),
        (None, Some(name)) => Target::Name(name),
        (None, None) => Target::Choose,
    }
}

/// Picks the dataflow that `stop` is about.
pub fn stop(uuid: Option<u128>, name: Option<String>) -> (target: Target)
    ensures
        target == stop_target(uuid, name),
{
    match (uuid, name) {
        (Some(uuid), _) => Target::Uuid(uuid),
        (None, Some(name)) => Target::Name(name),
        (None, None) => Target::Choose,
    }
}

/// The dataflow that `logs` is about, given what the text reads as: the
/// identifier that it reads as, else the text as a name; the user's pick
/// where no text is given.
pub open spec fn logs_target_of(dataflow: Option<String>, parsed: Option<u128>) -> Target {
    match dataflow {
        None => Target::Choose,
        Some(text) => match parsed {
            Some(uuid) => Target::Uuid(uuid),
            None => Target::Name(text),
        },
    }
}

/// Picks the dataflow that `logs` is about, given what the text reads as.
pub fn logs_target_from(dataflow: Option<String>, parsed: Option<u128>) -> (target: Target)
    ensures
        target == logs_target_of(dataflow, parsed),
{
    match dataflow {
        None => Target::Choose,
        Some(text) => match parsed {
            Some(uuid) => Target::Uuid(uuid),
            None => Target::Name(text),
        },
    }
}

/// What a text reads as, where one is given.
pub open spec fn reading_of(dataflow: Option<String>) -> Option<u128> {
    match dataflow {
        Some(text) => uuid_of_text(text@),
        None => None,
    }
}

/// Picks the dataflow that `logs` is about: a text that reads as an
/// identifier is one, any other text is a name.
pub fn logs_target(dataflow: Option<String>) -> (target: Target)
    ensures
        target == logs_target_of(dataflow, reading_of(dataflow)),
{
    let parsed = match &dataflow {
        Some(text) => parse_uuid(text.as_str()),
        None => None,
    };
    logs_target_from(dataflow, parsed)
}

/// How the descriptor is checked for a coordinator at this address.
pub fn validation_for(coordinator_addr: &IpAddress) -> (validation: Validation)
    ensures
        validation == if coordinator_addr.loopback() {
            Validation::Local
        } else {
            Validation::Remote
        },
{
    if coordinator_addr.is_loopback() {
        Validation::Local
    } else {
        Validation::Remote
    }
}

/// Why a command cannot be carried out.
#[derive(Debug, Clone, Copy, PartialEq, Eq, Structural)]
pub enum CliError {
    /// Both `--attach` and `--detach` are given.
    AttachAndDetach,
    /// No dataflows are running.
    NothingRuns,
    /// The daemon has not connected after this many waits of a tenth of a
    /// second.
    DaemonNotConnected { waits: u32 },
}

/// Whether `start` stays attached to the dataflow.
#[derive(Debug, Clone, Copy, PartialEq, Eq, Structural)]
pub struct Attach {
    pub attach: bool,
    /// Neither flag was given: the user is told that the command attaches
    /// and how to keep it from doing so.
    pub announce: bool,
}

/// Decides whether `start` stays attached to the dataflow that it has
/// started: as the flags say, and attached where they say nothing.
pub fn start(attach: bool, detach: bool) -> (mode: Result<Attach, CliError>)
    ensures
        mode == if attach && detach {
            Err::<Attach, CliError>(CliError::AttachAndDetach)
        } else {
            Ok::<Attach, CliError>(
                Attach { attach: attach || !detach, announce: !attach && !detach },
            )
        },
{
    match (attach, detach) {
        (true, true) => Err(CliError::AttachAndDetach),
        (true, false) => Ok(Attach { attach: true, announce: false }),
        (false, true) => Ok(Attach { attach: false, announce: false }),
        (false, false) => Ok(Attach { attach: true, announce: true }),
    }
}

/// The mode that the arguments of `daemon` ask for.
pub open spec fn daemon_mode(
    machine_id: Option<String>,
    inter_daemon_addr: SocketAddress,
    local_listen_port: u16,
    coordinator_addr: SocketAddress,
    run_dataflow: Option<String>,
) -> DaemonMode {
    match run_dataflow {
        Some(dataflow) => DaemonMode::RunDataflow {
            dataflow,
            coordinator_ignored: coordinator_addr != (SocketAddress {
                ip: IpAddress::V4 { a: 127, b: 0, c: 0, d: 1 },
                port: DORA_COORDINATOR_PORT_DEFAULT,
            }),
        },
        None => DaemonMode::Connect {
            coordinator: coordinator_addr,
            machine_id,
            inter_daemon_addr,
            local_listen_port,
            local: coordinator_addr.ip == (IpAddress::V4 { a: 127, b: 0, c: 0, d: 1 }),
        },
    }
}

/// What is to be done for a command, given what the text of `logs` reads
/// as.
pub open spec fn action_for(command: Command, parsed: Option<u128>) -> Action {
    match command {
        Command::Check { dataflow, coordinator_addr, coordinator_port } => Action::Check {
            dataflow,
            coordinator: SocketAddress { ip: coordinator_addr, port: coordinator_port },
        },
        Command::Graph { dataflow, mermaid, open } => Action::Graph { dataflow, mermaid, open },
        Command::Build { dataflow } => Action::Build { dataflow },
        Command::New { args, internal_create_with_path_dependencies } => Action::New {
            args,
            internal_create_with_path_dependencies,
        },
        Command::Up { config } => Action::Up { config },
        Command::Destroy { config, coordinator_addr, coordinator_port } => Action::Destroy {
            config,
            coordinator: SocketAddress { ip: coordinator_addr, port: coordinator_port },
        },
        Command::Start {
            dataflow,
            name,
            coordinator_addr,
            coordinator_port,
            attach,
            detach,
            hot_reload,
        } => Action::Start {
            dataflow,
            name,
            coordinator: SocketAddress { ip: coordinator_addr, port: coordinator_port },
            validation: if coordinator_addr.loopback() {
                Validation::Local
            } else {
                Validation::Remote
            },
            attach,
            detach,
            hot_reload,
        },
        Command::Stop { uuid, name, grace_duration, coordinator_addr, coordinator_port } => {
            Action::Stop {
                target: stop_target(uuid, name),
                grace_duration,
                coordinator: SocketAddress { ip: coordinator_addr, port: coordinator_port },
            }
        },
        Command::List { coordinator_addr, coordinator_port } => Action::List {
            coordinator: SocketAddress { ip: coordinator_addr, port: coordinator_port },
        },
        Command::Logs { dataflow, node, coordinator_addr, coordinator_port } => Action::Logs {
            target: logs_target_of(dataflow, parsed),
            node,
            coordinator: SocketAddress { ip: coordinator_addr, port: coordinator_port },
        },
        Command::Daemon {
            machine_id,
            inter_daemon_addr,
            local_listen_port,
            coordinator_addr,
            run_dataflow,
            quiet,
        } => Action::Daemon {
            mode: daemon_mode(
                machine_id,
                inter_daemon_addr,
                local_listen_port,
                coordinator_addr,
                run_dataflow,
            ),
        },
        Command::Runtime => Action::Runtime,
        Command::Coordinator { interface, port, control_interface, control_port, quiet } => {
            Action::Coordinator {
                bind: SocketAddress { ip: interface, port },
                bind_control: SocketAddress { ip: control_interface, port: control_port },
                quiet,
            }
        },
    }
}

/// What the text of `logs` reads as, where the command is `logs` and a text
/// is given.
pub open spec fn reading_in(command: Command) -> Option<u128> {
    match command {
        Command::Logs { dataflow, .. } => reading_of(dataflow),
        _ => None,
    }
}

/// Says what is to be done for a command.
pub fn run(command: Command) -> (action: Action)
    ensures
        action == action_for(command, reading_in(command)),
{
    match command {
        Command::Check { dataflow, coordinator_addr, coordinator_port } => Action::Check {
            dataflow,
            coordinator: SocketAddress { ip: coordinator_addr, port: coordinator_port },
        },
        Command::Graph { dataflow, mermaid, open } => Action::Graph { dataflow, mermaid, open },
        Command::Build { dataflow } => Action::Build { dataflow },
        Command::New { args, internal_create_with_path_dependencies } => Action::New {
            args,
            internal_create_with_path_dependencies,
        },
        Command::Up { config } => Action::Up { config },
        Command::Destroy { config, coordinator_addr, coordinator_port } => Action::Destroy {
            config,
            coordinator: SocketAddress { ip: coordinator_addr, port: coordinator_port },
        },
        Command::Start {
            dataflow,
            name,
            coordinator_addr,
            coordinator_port,
            attach,
            detach,
            hot_reload,
        } => {
            let validation = validation_for(&coordinator_addr);
            Action::Start {
                dataflow,
                name,
                coordinator: SocketAddress { ip: coordinator_addr, port: coordinator_port },
                validation,
                attach,
                detach,
                hot_reload,
            }
        },
        Command::Stop { uuid, name, grace_duration, coordinator_addr, coordinator_port } => {
            Action::Stop {
                target: stop(uuid, name),
                grace_duration,
                coordinator: SocketAddress { ip: coordinator_addr, port: coordinator_port },
            }
        },
        Command::List { coordinator_addr, coordinator_port } => Action::List {
            coordinator: SocketAddress { ip: coordinator_addr, port: coordinator_port },
        },
        Command::Logs { dataflow, node, coordinator_addr, coordinator_port } => Action::Logs {
            target: logs_target(dataflow),
            node,
            coordinator: SocketAddress { ip: coordinator_addr, port: coordinator_port },
        },
        Command::Daemon {
            machine_id,
            inter_daemon_addr,
            local_listen_port,
            coordinator_addr,
            run_dataflow,
            quiet,
        } => {
            let localhost = IpAddress::V4 { a: 127, b: 0, c: 0, d: 1 };
            let mode = match run_dataflow {
                Some(dataflow) => DaemonMode::RunDataflow {
                    dataflow,
                    coordinator_ignored: coordinator_addr != (SocketAddress {
                        ip: localhost,
                        port: DORA_COORDINATOR_PORT_DEFAULT,
                    }),
                },
                None => DaemonMode::Connect {
                    coordinator: coordinator_addr,
                    machine_id,
                    inter_daemon_addr,
                    local_listen_port,
                    local: coordinator_addr.ip == localhost,
                },
            };
            Action::Daemon { mode }
        },
        Command::Runtime => Action::Runtime,
        Command::Coordinator { interface, port, control_interface, control_port, quiet } => {
            Action::Coordinator {
                bind: SocketAddress { ip: interface, port },
                bind_control: SocketAddress { ip: control_interface, port: control_port },
                quiet,
            }
        },
    }
}

/// What an unexpected or failing reply of the coordinator amounts to.
#[derive(Debug)]
pub enum ReplyError {
    /// The coordinator reports an error.
    Reported(String),
    /// The reply does not answer the request.
    Unexpected(ControlRequestReply),
}

/// The request that starts a dataflow.
pub fn start_request(dataflow_path: String, name: Option<String>) -> (request: ControlRequest)
    ensures
        request == (ControlRequest::Start { dataflow_path, name }),
{
    ControlRequest::Start { dataflow_path, name }
}

/// What the reply to `Start` means: the identifier of the dataflow that
/// has started, or why none has.
pub fn start_dataflow(reply: ControlRequestReply) -> (started: Result<u128, ReplyError>)
    ensures
        match reply {
            ControlRequestReply::DataflowStarted { uuid } => started matches Ok(id) && id == uuid,
            ControlRequestReply::Error(message) => started matches Err(ReplyError::Reported(text))
                && text == message,
            other => started matches Err(ReplyError::Unexpected(given)) && given == other,
        },
{
    match reply {
        ControlRequestReply::DataflowStarted { uuid } => Ok(uuid),
        ControlRequestReply::Error(message) => Err(ReplyError::Reported(message)),
        other => Err(ReplyError::Unexpected(other)),
    }
}

/// The request that stops the dataflow that `target` names.
pub fn stop_dataflow_request(target: Target, grace_period: Option<GracePeriod>) -> (request: Option<
    ControlRequest,
>)
    ensures
        request == match target {
            Target::Uuid(dataflow_uuid) => Some(
                ControlRequest::Stop { dataflow_uuid, grace_period },
            ),
            Target::Name(name) => Some(ControlRequest::StopByName { name, grace_period }),
            Target::Choose => None,
        },
{
    match target {
        Target::Uuid(dataflow_uuid) => Some(ControlRequest::Stop { dataflow_uuid, grace_period }),
        Target::Name(name) => Some(ControlRequest::StopByName { name, grace_period }),
        Target::Choose => None,
    }
}

/// Why a dataflow counts as failed, as it is shown to a user: which
/// dataflow, where that is known, and the description of the failure.
pub open spec fn failure_text(uuid: Option<u128>, description: Seq<char>) -> Seq<char> {
    match uuid {
        Some(uuid) => "Dataflow "@ + hyphenated(uuid) + " failed:\n"@ + description,
        None => "Dataflow failed:\n"@ + description,
    }
}

/// Turns the result of a dataflow into the outcome of the command: a
/// failed dataflow fails the command with a text that says so.
pub fn handle_dataflow_result(result: DataflowResult, uuid: Option<u128>) -> (outcome: Result<
    (),
    String,
>)
    ensures
        match result.outcome {
            Ok(_) => outcome is Ok,
            Err(description) => outcome matches Err(text) && text@ == failure_text(
                uuid,
                description@,
            ),
        },
{
    match result.outcome {
        Ok(_) => Ok(()),
        Err(description) => {
            let mut text = String::new();
            match uuid {
                Some(uuid) => {
                    push_str(&mut text, "Dataflow ");
                    let id = uuid_text(uuid);
                    push_str(&mut text, id.as_str());
                    push_str(&mut text, " failed:\n");
                },
                None => {
                    push_str(&mut text, "Dataflow failed:\n");
                },
            }
            push_str(&mut text, description.as_str());
            assert(text@ =~= failure_text(uuid, description@));
            Err(text)
        },
    }
}

/// What became of a stop.
#[derive(Debug)]
pub enum StopFailure {
    /// The dataflow has stopped, and has failed; the text says how.
    Failed(String),
    /// The coordinator has not stopped it.
    Refused(ReplyError),
}

/// What the reply to `Stop` or `StopByName` means.
pub fn stop_dataflow(reply: ControlRequestReply) -> (stopped: Result<(), StopFailure>)
    ensures
        match reply {
            ControlRequestReply::DataflowStopped { uuid, result } => match result.outcome {
                Ok(_) => stopped is Ok,
                Err(description) => stopped matches Err(StopFailure::Failed(text)) && text@
                    == failure_text(Some(uuid), description@),
            },
            ControlRequestReply::Error(message) => stopped matches Err(
                StopFailure::Refused(ReplyError::Reported(text)),
            ) && text == message,
            other => stopped matches Err(StopFailure::Refused(ReplyError::Unexpected(given)))
                && given == other,
        },
{
    match reply {
        ControlRequestReply::DataflowStopped { uuid, result } => {
            match handle_dataflow_result(result, Some(uuid)) {
                Ok(_) => Ok(()),
                Err(text) => Err(StopFailure::Failed(text)),
            }
        },
        ControlRequestReply::Error(message) => Err(StopFailure::Refused(ReplyError::Reported(message))),
        other => Err(StopFailure::Refused(ReplyError::Unexpected(other))),
    }
}

/// What the reply to `List` means.
pub fn query_running_dataflows(reply: ControlRequestReply) -> (list: Result<DataflowList, ReplyError>)
    ensures
        match reply {
            ControlRequestReply::DataflowList(given) => list matches Ok(list) && list == given,
            ControlRequestReply::Error(message) => list matches Err(ReplyError::Reported(text))
                && text == message,
            other => list matches Err(ReplyError::Unexpected(given)) && given == other,
        },
{
    match reply {
        ControlRequestReply::DataflowList(list) => Ok(list),
        ControlRequestReply::Error(message) => Err(ReplyError::Reported(message)),
        other => Err(ReplyError::Unexpected(other)),
    }
}

/// Which dataflow a command is about that names none.
#[derive(Debug, PartialEq, Eq)]
pub enum Pick {
    /// None runs.
    Nothing,
    /// This one.
    Only(DataflowId),
    /// The user is asked to pick one of these.
    Ask(Vec<DataflowId>),
}

/// Picks the dataflow whose logs are shown where none is named: the one
/// that runs if it is the only one, else the user's pick among those that
/// run.
pub fn pick_for_logs(active: Vec<DataflowId>) -> (pick: Result<Pick, CliError>)
    ensures
        active.len() == 0 ==> pick == Err::<Pick, CliError>(CliError::NothingRuns),
        active.len() == 1 ==> (pick matches Ok(Pick::Only(id)) && id == active[0]),
        active.len() > 1 ==> (pick matches Ok(Pick::Ask(list)) && list == active),
{
    let mut active = active;
    if active.len() == 0 {
        Err(CliError::NothingRuns)
    } else if active.len() == 1 {
        let only = active.remove(0);
        Ok(Pick::Only(only))
    } else {
        Ok(Pick::Ask(active))
    }
}

/// Picks the dataflow that is stopped where none is named: the user's pick
/// among those that run, also where only one does.
pub fn stop_dataflow_interactive(active: Vec<DataflowId>) -> (pick: Pick)
    ensures
        active.len() == 0 ==> pick == Pick::Nothing,
        active.len() > 0 ==> (pick matches Pick::Ask(list) && list == active),
{
    if active.len() == 0 {
        Pick::Nothing
    } else {
        Pick::Ask(active)
    }
}

/// The word that a status is shown as.
pub open spec fn status_word(status: DataflowStatus) -> Seq<char> {
    match status {
        DataflowStatus::Running => "Running"@,
        DataflowStatus::Finished => "Succeeded"@,
        DataflowStatus::Failed => "Failed"@,
    }
}

/// One line of the table: identifier, name and status, with a tab between
/// them.
pub open spec fn line_of(entry: DataflowListEntry) -> Seq<char> {
    hyphenated(entry.id.uuid) + "\t"@ + match entry.id.name {
        Some(name) => name@,
        None => Seq::<char>::empty(),
    } + "\t"@ + status_word(entry.status) + "\n"@
}

/// The lines of the entries, one after the other.
pub open spec fn lines_of(entries: Seq<DataflowListEntry>) -> Seq<char>
    decreases entries.len(),
{
    if entries.len() == 0 {
        Seq::empty()
    } else {
        lines_of(entries.drop_last()) + line_of(entries.last())
    }
}

/// The table of the dataflows before its columns are aligned: a heading,
/// and a line for each dataflow.
pub open spec fn table_of(list: DataflowList) -> Seq<char> {
    "UUID\tName\tStatus\n"@ + lines_of(list.0@)
}

/// Writes the table of the dataflows, its columns separated by tabs.
pub fn list_table(list: &DataflowList) -> (text: String)
    ensures
        text@ == table_of(*list),
{
    let mut text = String::new();
    push_str(&mut text, "UUID\tName\tStatus\n");
    let mut i: usize = 0;
    while i < list.0.len()
        invariant
            i <= list.0.len(),
            text@ == "UUID\tName\tStatus\n"@ + lines_of(list.0@.subrange(0, i as int)),
        decreases list.0.len() - i,
    {
        let ghost before = text@;
        let ghost seen = list.0@.subrange(0, i as int);
        proof {
            let next = list.0@.subrange(0, i + 1);
            assert(next.drop_last() =~= seen);
            assert(next.last() == list.0[i as int]);
        }
        let entry = &list.0[i];
        let id = uuid_text(entry.id.uuid);
        push_str(&mut text, id.as_str());
        push_str(&mut text, "\t");
        match &entry.id.name {
            Some(name) => {
                push_str(&mut text, name.as_str());
            },
            None => {},
        }
        push_str(&mut text, "\t");
        let word = match entry.status {
            DataflowStatus::Running => "Running",
            DataflowStatus::Finished => "Succeeded",
            DataflowStatus::Failed => "Failed",
        };
        push_str(&mut text, word);
        push_str(&mut text, "\n");
        assert(text@ =~= before + line_of(*entry));
        assert(before + line_of(*entry) =~= "UUID\tName\tStatus\n"@ + (lines_of(seen) + line_of(
            *entry,
        )));
        i += 1;
    }
    assert(list.0@.subrange(0, list.0.len() as int) =~= list.0@);
    text
}

/// The text that the aligned bytes of a table spell.
pub open spec fn shown(aligned: Option<Seq<u8>>) -> Option<Seq<char>> {
    match aligned {
        Some(bytes) => if vstd::utf8::valid_utf8(bytes) {
            Some(vstd::utf8::decode_utf8(bytes))
        } else {
            None
        },
        None => None,
    }
}

/// Turns the aligned bytes of a table into the text that is shown.
pub fn list_from(aligned: Option<Vec<u8>>) -> (text: Option<String>)
    ensures
        match text {
            Some(text) => shown(
                match aligned {
                    Some(bytes) => Some(bytes@),
                    None => None,
                },
            ) == Some(text@),
            None => shown(
                match aligned {
                    Some(bytes) => Some(bytes@),
                    None => None,
                },
            ) is None,
        },
{
    match aligned {
        Some(bytes) => text_of(bytes),
        None => None,
    }
}

/// The table of the dataflows as it is shown: identifier, name and status,
/// in aligned columns.
pub fn list(dataflows: &DataflowList) -> (text: Option<String>)
    ensures
        match text {
            Some(text) => shown(tab_aligned(vstd::utf8::encode_utf8(table_of(*dataflows)))) == Some(text@),
            None => shown(tab_aligned(vstd::utf8::encode_utf8(table_of(*dataflows)))) is None,
        },
{
    let table = list_table(dataflows);
    let aligned = align_tabs(table.as_str().as_bytes());
    list_from(aligned)
}

/// Where the configuration is read from: the path that was given, else the
/// default file if there is one, else nowhere.
pub fn parse_dora_config(config_path: Option<String>, default_exists: bool) -> (path: Option<String>)
    ensures
        match config_path {
            Some(given) => path == Some(given),
            None => if default_exists {
                path matches Some(found) && found@ == "dora-config.yml"@
            } else {
                path is None
            },
        },
{
    match config_path {
        Some(given) => Some(given),
        None => if default_exists {
            Some("dora-config.yml".to_owned())
        } else {
            None
        },
    }
}

/// Whether the running program is the `dora` binary itself, going by the
/// name of its file.
pub fn get_dora_path(file_name: Option<&String>) -> (is_dora: bool)
    ensures
        is_dora == match file_name {
            Some(name) => name@ == "dora"@,
            None => false,
        },
{
    match file_name {
        Some(name) => {
            let dora = "dora".to_owned();
            *name == dora
        },
        None => false,
    }
}

/// Where `up` stands.
#[derive(Debug, Clone, Copy, PartialEq, Eq, Structural)]
pub enum UpState {
    /// Trying to reach a coordinator that may already run.
    Probing,
    /// A coordinator has been started; waiting for it to accept.
    AwaitingCoordinator,
    /// Connected; asking whether a daemon is connected too.
    CheckingDaemon,
    /// A daemon has been started; it has been asked for this many times.
    AwaitingDaemon { waits: u32 },
    Done,
    Failed,
}

/// What `up` has learned.
#[derive(Debug, Clone, Copy, PartialEq, Eq, Structural)]
pub enum UpEvent {
    /// The attempt to connect has succeeded or failed.
    Connected(bool),
    /// The coordinator says whether a daemon is connected.
    DaemonRunning(bool),
}

/// What `up` does next.
#[derive(Debug, Clone, Copy, PartialEq, Eq, Structural)]
pub enum UpAction {
    /// Start a coordinator, then try to connect.
    StartCoordinator,
    /// Wait this many milliseconds, then try to connect.
    RetryConnect { after_ms: u64 },
    /// Ask the coordinator whether a daemon is connected.
    AskDaemon,
    /// Start a daemon, then ask whether it is connected.
    StartDaemon,
    /// Wait this many milliseconds, then ask again.
    AskDaemonAgain { after_ms: u64 },
    Finish,
    Fail(CliError),
    /// The event does not belong to the state: nothing is done.
    Ignore,
}

/// How long `up` waits before it tries the coordinator again.
pub const COORDINATOR_RETRY_MS: u64 = 50;

/// How long `up` waits before it asks for the daemon again.
pub const DAEMON_RETRY_MS: u64 = 100;

/// How often `up` asks for the daemon before it gives up.
pub const DAEMON_WAITS: u32 = 20;

/// The step that `up` takes: a coordinator is started if none answers and
/// tried every 50 ms until it does; a daemon is started if none is
/// connected and asked for every 100 ms, and given up after more than 20
/// askings.
pub open spec fn up_step(state: UpState, event: UpEvent) -> (UpState, UpAction) {
    match (state, event) {
        (UpState::Probing, UpEvent::Connected(true)) => (
            UpState::CheckingDaemon,
            UpAction::AskDaemon,
        ),
        (UpState::Probing, UpEvent::Connected(false)) => (
            UpState::AwaitingCoordinator,
            UpAction::StartCoordinator,
        ),
        (UpState::AwaitingCoordinator, UpEvent::Connected(true)) => (
            UpState::CheckingDaemon,
            UpAction::AskDaemon,
        ),
        (UpState::AwaitingCoordinator, UpEvent::Connected(false)) => (
            UpState::AwaitingCoordinator,
            UpAction::RetryConnect { after_ms: COORDINATOR_RETRY_MS },
        ),
        (UpState::CheckingDaemon, UpEvent::DaemonRunning(true)) => (
            UpState::Done,
            UpAction::Finish,
        ),
        (UpState::CheckingDaemon, UpEvent::DaemonRunning(false)) => (
            UpState::AwaitingDaemon { waits: 0 },
            UpAction::StartDaemon,
        ),
        (UpState::AwaitingDaemon { waits }, UpEvent::DaemonRunning(true)) => (
            UpState::Done,
            UpAction::Finish,
        ),
        (UpState::AwaitingDaemon { waits }, UpEvent::DaemonRunning(false)) => if waits
            >= DAEMON_WAITS {
            (
                UpState::Failed,
                UpAction::Fail(
                    CliError::DaemonNotConnected {
                        waits: if waits < u32::MAX {
                            (waits + 1) as u32
                        } else {
                            waits
                        },
                    },
                ),
            )
        } else {
            (
                UpState::AwaitingDaemon { waits: (waits + 1) as u32 },
                UpAction::AskDaemonAgain { after_ms: DAEMON_RETRY_MS },
            )
        },
        _ => (state, UpAction::Ignore),
    }
}

/// Takes `up` one step further.
pub fn up(state: UpState, event: UpEvent) -> (step: (UpState, UpAction))
    ensures
        step == up_step(state, event),
{
    match (state, event) {
        (UpState::Probing, UpEvent::Connected(true)) => (
            UpState::CheckingDaemon,
            UpAction::AskDaemon,
        ),
        (UpState::Probing, UpEvent::Connected(false)) => (
            UpState::AwaitingCoordinator,
            UpAction::StartCoordinator,
        ),
        (UpState::AwaitingCoordinator, UpEvent::Connected(true)) => (
            UpState::CheckingDaemon,
            UpAction::AskDaemon,
        ),
        (UpState::AwaitingCoordinator, UpEvent::Connected(false)) => (
            UpState::AwaitingCoordinator,
            UpAction::RetryConnect { after_ms: COORDINATOR_RETRY_MS },
        ),
        (UpState::CheckingDaemon, UpEvent::DaemonRunning(true)) => (
            UpState::Done,
            UpAction::Finish,
        ),
        (UpState::CheckingDaemon, UpEvent::DaemonRunning(false)) => (
            UpState::AwaitingDaemon { waits: 0 },
            UpAction::StartDaemon,
        ),
        (UpState::AwaitingDaemon { waits }, UpEvent::DaemonRunning(true)) => (
            UpState::Done,
            UpAction::Finish,
        ),
        (UpState::AwaitingDaemon { waits }, UpEvent::DaemonRunning(false)) => {
            if waits >= DAEMON_WAITS {
                (
                    UpState::Failed,
                    UpAction::Fail(
                        CliError::DaemonNotConnected {
                            waits: if waits < u32::MAX {
                                waits + 1
                            } else {
                                waits
                            },
                        },
                    ),
                )
            } else {
                (
                    UpState::AwaitingDaemon { waits: waits + 1 },
                    UpAction::AskDaemonAgain { after_ms: DAEMON_RETRY_MS },
                )
            }
        },
        _ => (state, UpAction::Ignore),
    }
}

/// What `destroy` does once it has tried to reach the coordinator.
#[derive(Debug)]
pub enum DestroyStep {
    /// Send this request and tell the user that it was sent.
    Send(ControlRequest),
    /// Tell the user that the coordinator could not be reached.
    Unreachable,
}

/// Says what `destroy` does: a coordinator that is reached is told to
/// destroy everything; one that is not reached is no error.
pub fn destroy(connected: bool) -> (step: DestroyStep)
    ensures
        connected ==> (step matches DestroyStep::Send(request) && request is Destroy),
        !connected ==> step is Unreachable,
{
    if connected {
        DestroyStep::Send(ControlRequest::Destroy)
    } else {
        DestroyStep::Unreachable
    }
}

} // verus!

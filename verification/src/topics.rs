//! Messages between a control client and the coordinator.

use vstd::prelude::*;
use crate::trusted::{hyphenated, push_str, uuid_text};

verus! {

pub const DORA_COORDINATOR_PORT_DEFAULT: u16 = 0xD02A;

pub const DORA_COORDINATOR_PORT_CONTROL_DEFAULT: u16 = 6012;

pub const MANUAL_STOP: &'static str = "dora/stop";

/// An internet address as four or sixteen bytes.
#[derive(Debug, Clone, Copy, PartialEq, Eq, Structural)]
pub enum IpAddress {
    V4 { a: u8, b: u8, c: u8, d: u8 },
    V6 { bits: u128 },
}

impl IpAddress {
    /// The addresses that reach the machine itself: `127.0.0.0/8` and `::1`.
    pub open spec fn loopback(self) -> bool {
        match self {
            IpAddress::V4 { a, .. } => a == 127,
            IpAddress::V6 { bits } => bits == 1,
        }
    }

    pub fn is_loopback(&self) -> (local: bool)
        ensures
            local == self.loopback(),
    {
        match self {
            IpAddress::V4 { a, .. } => *a == 127,
            IpAddress::V6 { bits } => *bits == 1,
        }
    }
}

/// The address of the machine itself, `127.0.0.1`.
pub fn localhost() -> (ip: IpAddress)
    ensures
        ip == (IpAddress::V4 { a: 127, b: 0, c: 0, d: 1 }),
{
    IpAddress::V4 { a: 127, b: 0, c: 0, d: 1 }
}

/// The address that listens on every interface, `0.0.0.0`.
pub fn listen_wildcard() -> (ip: IpAddress)
    ensures
        ip == (IpAddress::V4 { a: 0, b: 0, c: 0, d: 0 }),
{
    IpAddress::V4 { a: 0, b: 0, c: 0, d: 0 }
}

/// An address and a port.
#[derive(Debug, Clone, Copy, PartialEq, Eq, Structural)]
pub struct SocketAddress {
    pub ip: IpAddress,
    pub port: u16,
}

/// Where the coordinator listens for control clients by default.
pub fn control_socket_addr() -> (addr: SocketAddress)
    ensures
        addr == (SocketAddress { ip: IpAddress::V4 { a: 127, b: 0, c: 0, d: 1 }, port: 6012 }),
{
    SocketAddress { ip: IpAddress::V4 { a: 127, b: 0, c: 0, d: 1 }, port: 6012 }
}

/// How long a stopped node is given to leave by itself.
#[derive(Debug, Clone, Copy, PartialEq, Eq, Structural)]
pub struct GracePeriod {
    pub secs: u64,
    pub nanos: u32,
}

impl GracePeriod {
    /// The period in whole milliseconds, capped at the largest number that
    /// fits.
    pub open spec fn millis(self) -> nat {
        let exact = self.secs * 1000 + self.nanos / 1_000_000;
        if exact > u64::MAX {
            u64::MAX as nat
        } else {
            exact as nat
        }
    }

    pub fn as_millis(&self) -> (ms: u64)
        ensures
            ms == self.millis(),
    {
        let sub: u64 = (self.nanos / 1_000_000) as u64;
        if self.secs > (u64::MAX - sub) / 1000 {
            u64::MAX
        } else {
            self.secs * 1000 + sub
        }
    }
}

/// What a control client asks of the coordinator.
#[derive(Debug)]
pub enum ControlRequest {
    Start { dataflow_path: String, name: Option<String> },
    Stop { dataflow_uuid: u128, grace_period: Option<GracePeriod> },
    StopByName { name: String, grace_period: Option<GracePeriod> },
    Destroy,
    List,
    DaemonConnected,
}

#[derive(Debug, Clone, PartialEq, Eq)]
pub enum StartDataflowResult {
    Started { uuid: u128 },
    Error(String),
}

#[derive(Debug, Clone, PartialEq, Eq)]
pub enum StopDataflowResult {
    Stopped,
    Error(String),
}

#[derive(Debug, Clone)]
pub enum ListDataflowResult {
    Listed { dataflows: Vec<DataflowId> },
    Error(String),
}

/// A running dataflow as a control client knows it.
#[derive(Debug, Clone, PartialEq, Eq)]
pub struct DataflowId {
    pub uuid: u128,
    pub name: Option<String>,
}

impl DataflowId {
    /// The name in square brackets, `<unnamed>` where there is none, a
    /// space, and the identifier in its hyphenated form.
    pub open spec fn text(self) -> Seq<char> {
        match self.name {
            Some(name) => "["@ + name@ + "] "@ + hyphenated(self.uuid),
            None => "[<unnamed>] "@ + hyphenated(self.uuid),
        }
    }

    /// The dataflow as it is shown to a user.
    pub fn to_text(&self) -> (text: String)
        ensures
            text@ == self.text(),
    {
        let mut text = String::new();
        match &self.name {
            Some(name) => {
                push_str(&mut text, "[");
                push_str(&mut text, name.as_str());
                push_str(&mut text, "] ");
            },
            None => {
                push_str(&mut text, "[<unnamed>] ");
            },
        }
        let uuid = uuid_text(self.uuid);
        push_str(&mut text, uuid.as_str());
        assert(text@ =~= self.text());
        text
    }

    pub fn duplicate(&self) -> (copy: DataflowId)
        ensures
            copy == *self,
    {
        DataflowId {
            uuid: self.uuid,
            name: match &self.name {
                Some(name) => Some(name.clone()),
                None => None,
            },
        }
    }
}

/// Where a dataflow stands.
#[derive(Debug, Clone, Copy, PartialEq, Eq, Structural)]
pub enum DataflowStatus {
    Running,
    Finished,
    Failed,
}

/// One line of the coordinator's answer to `List`.
#[derive(Debug, Clone, PartialEq, Eq)]
pub struct DataflowListEntry {
    pub id: DataflowId,
    pub status: DataflowStatus,
}

/// The coordinator's answer to `List`.
#[derive(Debug, Clone, PartialEq, Eq)]
pub struct DataflowList(pub Vec<DataflowListEntry>);

/// The dataflows of the entries that are running, in order.
pub open spec fn active_of(entries: Seq<DataflowListEntry>) -> Seq<DataflowId>
    decreases entries.len(),
{
    if entries.len() == 0 {
        Seq::empty()
    } else if entries.last().status == DataflowStatus::Running {
        active_of(entries.drop_last()).push(entries.last().id)
    } else {
        active_of(entries.drop_last())
    }
}

impl DataflowList {
    /// The dataflows that are running.
    pub fn get_active(&self) -> (active: Vec<DataflowId>)
        ensures
            active@ == active_of(self.0@),
    {
        let mut active: Vec<DataflowId> = Vec::new();
        let mut i: usize = 0;
        while i < self.0.len()
            invariant
                i <= self.0.len(),
                active@ == active_of(self.0@.subrange(0, i as int)),
            decreases self.0.len() - i,
        {
            proof {
                let next = self.0@.subrange(0, i + 1);
                assert(next.drop_last() =~= self.0@.subrange(0, i as int));
                assert(next.last() == self.0[i as int]);
            }
            if self.0[i].status == DataflowStatus::Running {
                active.push(self.0[i].id.duplicate());
            }
            i += 1;
        }
        assert(self.0@.subrange(0, self.0.len() as int) =~= self.0@);
        active
    }
}

/// How a dataflow ended, over all the daemons that ran it: well, or with
/// the description of the first failure.
#[derive(Debug, PartialEq, Eq)]
pub struct DataflowResult {
    pub uuid: u128,
    pub outcome: Result<(), String>,
}

impl DataflowResult {
    pub fn is_ok(&self) -> (ok: bool)
        ensures
            ok == self.outcome is Ok,
    {
        self.outcome.is_ok()
    }
}

/// What the coordinator answers a control client.
#[derive(Debug)]
pub enum ControlRequestReply {
    DataflowStarted { uuid: u128 },
    DataflowStopped { uuid: u128, result: DataflowResult },
    DataflowList(DataflowList),
    /// Everything is shut down.
    DestroyOk,
    /// Whether a daemon is connected.
    DaemonConnected(bool),
    Error(String),
}

} // verus!

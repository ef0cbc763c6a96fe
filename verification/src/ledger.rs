//! The drop-token ledger: which shared-memory regions are alive, and which
//! consumers still owe an acknowledgment for each of them.
//!
//! A region is allocated, then published to a fixed set of consumers under a
//! drop token, then acknowledged by each consumer in turn. It is released at
//! the moment the last consumer has acknowledged it, and its handle is never
//! valid again.

use vstd::prelude::*;
use crate::config::{distinct, lemma_node_set_empty, lemma_node_set_remove, no_repeats, node_set, position_of, NodeId};
use crate::daemon_messages::{DropToken, SharedMemoryId};

verus! {

/// What the ledger knows of one live region.
pub enum RegionState {
    /// Reserved; no consumer has been told of it.
    Allocated { size: nat },
    /// Handed to consumers; `pending` are those that have not acknowledged.
    InFlight { size: nat, token: DropToken, pending: Set<Seq<char>> },
}

impl RegionState {
    pub open spec fn carries(self, token: DropToken) -> bool {
        self matches RegionState::InFlight { token: t, .. } && t == token
    }

    pub open spec fn owes(self, node: Seq<char>) -> bool {
        self matches RegionState::InFlight { pending, .. } && pending.contains(node)
    }

    /// Whether `node` is the only consumer that still owes an acknowledgment.
    pub open spec fn owes_only(self, node: Seq<char>) -> bool {
        self matches RegionState::InFlight { pending, .. } && pending =~= set![node]
    }

    /// The state once `node` has acknowledged; `None` where that releases
    /// the region.
    pub open spec fn without(self, node: Seq<char>) -> Option<RegionState> {
        match self {
            RegionState::Allocated { .. } => Some(self),
            RegionState::InFlight { size, token, pending } => {
                if !pending.contains(node) {
                    Some(self)
                } else if pending =~= set![node] {
                    None
                } else {
                    Some(RegionState::InFlight { size, token, pending: pending.remove(node) })
                }
            },
        }
    }
}

/// The ledger as a mathematical value: the number of handles given out so
/// far, and the state of each region that has not been released.
pub struct LedgerModel {
    pub next: nat,
    pub live: Map<nat, RegionState>,
}

impl LedgerModel {
    pub open spec fn empty() -> LedgerModel {
        LedgerModel { next: 0, live: Map::empty() }
    }

    pub open spec fn wf(self) -> bool {
        &&& forall|r: nat| #[trigger] self.live.dom().contains(r) ==> r < self.next
        &&& forall|r: nat| #[trigger]
            self.live.dom().contains(r) ==> (self.live[r] matches RegionState::InFlight {
                pending,
                ..
            } ==> !(pending =~= Set::empty()))
        &&& forall|r1: nat, r2: nat, t: DropToken|
            #![trigger self.live[r1].carries(t), self.live[r2].carries(t)]
            self.live.dom().contains(r1) && self.live.dom().contains(r2) && self.live[r1].carries(
                t,
            ) && self.live[r2].carries(t) ==> r1 == r2
    }

    /// The handle was given out and its region is gone.
    pub open spec fn released(self, region: nat) -> bool {
        region < self.next && !self.live.dom().contains(region)
    }

    /// Some live region is in flight under `token`.
    pub open spec fn tracks(self, token: DropToken) -> bool {
        exists|r: nat| self.live.dom().contains(r) && #[trigger] self.live[r].carries(token)
    }

    pub open spec fn allocate(self, size: nat) -> LedgerModel {
        LedgerModel {
            next: self.next + 1,
            live: self.live.insert(self.next, RegionState::Allocated { size }),
        }
    }

    /// The error that `publish` answers with, if any.
    pub open spec fn publish_error(self, region: nat, token: DropToken) -> Option<LedgerError> {
        if !self.live.dom().contains(region) {
            Some(LedgerError::UnknownRegion)
        } else if self.live[region] is InFlight {
            Some(LedgerError::AlreadyPublished)
        } else if self.tracks(token) {
            Some(LedgerError::DuplicateToken)
        } else {
            None
        }
    }

    pub open spec fn publish(self, region: nat, consumers: Set<Seq<char>>, token: DropToken)
        -> LedgerModel
        recommends
            self.publish_error(region, token) is None,
    {
        if consumers =~= Set::empty() {
            LedgerModel { next: self.next, live: self.live.remove(region) }
        } else {
            LedgerModel {
                next: self.next,
                live: self.live.insert(
                    region,
                    RegionState::InFlight {
                        size: self.live[region]->Allocated_size,
                        token,
                        pending: consumers,
                    },
                ),
            }
        }
    }

    pub open spec fn acknowledge(self, node: Seq<char>, token: DropToken) -> LedgerModel {
        LedgerModel {
            next: self.next,
            live: Map::new(
                |r: nat|
                    self.live.dom().contains(r) && (self.live[r].carries(token)
                        ==> self.live[r].without(node) is Some),
                |r: nat|
                    if self.live[r].carries(token) {
                        self.live[r].without(node).unwrap()
                    } else {
                        self.live[r]
                    },
            ),
        }
    }

    pub open spec fn force_release(self, node: Seq<char>) -> LedgerModel {
        LedgerModel {
            next: self.next,
            live: Map::new(
                |r: nat| self.live.dom().contains(r) && self.live[r].without(node) is Some,
                |r: nat| self.live[r].without(node).unwrap(),
            ),
        }
    }

    /// The region that `acknowledge(node, token)` releases, if it releases
    /// one: the region in flight under `token` for which only `node` still
    /// owes an acknowledgment.
    pub open spec fn release_of(self, node: Seq<char>, token: DropToken) -> Option<SharedMemoryId> {
        if exists|r: nat|
            self.live.dom().contains(r) && #[trigger] self.live[r].carries(token)
                && self.live[r].owes_only(node) {
            let r = choose|r: nat|
                self.live.dom().contains(r) && #[trigger] self.live[r].carries(token)
                    && self.live[r].owes_only(node);
            Some(SharedMemoryId(r as u64))
        } else {
            None
        }
    }

    /// The acknowledgments of one node for `tokens`, one after the other.
    pub open spec fn acknowledge_tokens(self, node: Seq<char>, tokens: Seq<DropToken>) -> LedgerModel
        decreases tokens.len(),
    {
        if tokens.len() == 0 {
            self
        } else {
            self.acknowledge_tokens(node, tokens.drop_last()).acknowledge(node, tokens.last())
        }
    }

    /// The regions that `acknowledge_tokens(node, tokens)` releases, in the
    /// order of the tokens that release them.
    pub open spec fn released_by(self, node: Seq<char>, tokens: Seq<DropToken>) -> Seq<
        SharedMemoryId,
    >
        decreases tokens.len(),
    {
        if tokens.len() == 0 {
            Seq::empty()
        } else {
            let earlier = self.released_by(node, tokens.drop_last());
            match self.acknowledge_tokens(node, tokens.drop_last()).release_of(
                node,
                tokens.last(),
            ) {
                Some(region) => earlier.push(region),
                None => earlier,
            }
        }
    }

    /// `report` is what `force_release(node)` has to tell: by rising handle,
    /// each region that waited for `node`, with its token and with whether
    /// `node` was the last that it waited for.
    pub open spec fn reports_forced(self, node: Seq<char>, report: Seq<ForcedAck>) -> bool {
        &&& forall|k: int|
            0 <= k < report.len() ==> {
                let region = (#[trigger] report[k]).region.0 as nat;
                &&& self.live.dom().contains(region)
                &&& self.live[region].owes(node)
                &&& self.live[region].carries(report[k].token)
                &&& report[k].released == self.live[region].owes_only(node)
            }
        &&& forall|r: nat|
            self.live.dom().contains(r) && #[trigger] self.live[r].owes(node) ==> exists|k: int|
                0 <= k < report.len() && (#[trigger] report[k]).region.0 == r
        &&& forall|a: int, b: int|
            0 <= a < b < report.len() ==> (#[trigger] report[a]).region.0 < (
            #[trigger] report[b]).region.0
    }

    /// The acknowledgments of `nodes`, one after the other, all for `token`.
    pub open spec fn acknowledge_all(self, nodes: Seq<Seq<char>>, token: DropToken) -> LedgerModel
        decreases nodes.len(),
    {
        if nodes.len() == 0 {
            self
        } else {
            self.acknowledge_all(nodes.drop_last(), token).acknowledge(nodes.last(), token)
        }
    }

    /// How often the region went from live to released in the course of
    /// `acknowledge_all(nodes, token)`.
    pub open spec fn releases_during(self, region: nat, nodes: Seq<Seq<char>>, token: DropToken)
        -> nat
        decreases nodes.len(),
    {
        if nodes.len() == 0 {
            0
        } else {
            let before = self.acknowledge_all(nodes.drop_last(), token);
            let step: nat = if before.live.dom().contains(region) && !before.acknowledge(
                nodes.last(),
                token,
            ).live.dom().contains(region) {
                1
            } else {
                0
            };
            self.releases_during(region, nodes.drop_last(), token) + step
        }
    }
}

/// Why the ledger refused an operation.
#[derive(Debug, Clone, Copy, PartialEq, Eq, Structural)]
pub enum LedgerError {
    /// Every handle has been given out.
    Exhausted,
    /// The handle names no live region: never given out, or released.
    UnknownRegion,
    /// The region is already in flight.
    AlreadyPublished,
    /// Another live region is in flight under the same token.
    DuplicateToken,
}

/// One consumer's forced acknowledgment, as `force_release` reports it.
#[derive(Debug, Clone, Copy, PartialEq, Eq, Structural)]
pub struct ForcedAck {
    pub region: SharedMemoryId,
    pub token: DropToken,
    /// Whether the region was released by it.
    pub released: bool,
}

/// The record of one live region.
pub struct Region {
    id: u64,
    size: usize,
    token: Option<DropToken>,
    pending: Vec<NodeId>,
}

impl Region {
    pub closed spec fn state(self) -> RegionState {
        match self.token {
            None => RegionState::Allocated { size: self.size as nat },
            Some(token) => RegionState::InFlight {
                size: self.size as nat,
                token,
                pending: node_set(self.pending@),
            },
        }
    }

    spec fn sound(self) -> bool {
        &&& no_repeats(self.pending@)
        &&& self.token is Some ==> self.pending.len() > 0
    }
}

spec fn ascending(regions: Seq<Region>) -> bool {
    forall|i: int, j: int| 0 <= i < j < regions.len() ==> regions[i].id < regions[j].id
}

spec fn holds(regions: Seq<Region>, r: nat) -> bool {
    exists|i: int| 0 <= i < regions.len() && (#[trigger] regions[i]).id == r
}

spec fn place(regions: Seq<Region>, r: nat) -> int {
    choose|i: int| 0 <= i < regions.len() && (#[trigger] regions[i]).id == r
}

spec fn live_of(regions: Seq<Region>) -> Map<nat, RegionState> {
    Map::new(|r: nat| holds(regions, r), |r: nat| regions[place(regions, r)].state())
}

spec fn sound(regions: Seq<Region>, next: nat) -> bool {
    &&& ascending(regions)
    &&& forall|i: int| 0 <= i < regions.len() ==> (#[trigger] regions[i]).id < next
    &&& forall|i: int| 0 <= i < regions.len() ==> (#[trigger] regions[i]).sound()
    &&& forall|i: int, j: int|
        0 <= i < regions.len() && 0 <= j < regions.len() && (#[trigger] regions[i]).token is Some
            && regions[i].token == (#[trigger] regions[j]).token ==> i == j
}

proof fn lemma_place(regions: Seq<Region>, i: int)
    requires
        ascending(regions),
        0 <= i < regions.len(),
    ensures
        holds(regions, regions[i].id as nat),
        place(regions, regions[i].id as nat) == i,
        live_of(regions).dom().contains(regions[i].id as nat),
        live_of(regions)[regions[i].id as nat] == regions[i].state(),
{
    let k = place(regions, regions[i].id as nat);
    if k < i {
        assert(regions[k].id < regions[i].id);
    } else if i < k {
        assert(regions[i].id < regions[k].id);
    }
}

proof fn lemma_live_sound(regions: Seq<Region>, next: nat)
    requires
        sound(regions, next),
    ensures
        (LedgerModel { next, live: live_of(regions) }).wf(),
{
    let m = LedgerModel { next, live: live_of(regions) };
    assert forall|r: nat| #[trigger] m.live.dom().contains(r) implies r < m.next && (
    m.live[r] matches RegionState::InFlight { pending, .. } ==> !(pending =~= Set::empty())) by {
        let i = place(regions, r);
        lemma_place(regions, i);
        assert(regions[i].sound());
        lemma_node_set_empty(regions[i].pending@);
    }
    assert forall|r1: nat, r2: nat, t: DropToken|
        #![trigger m.live[r1].carries(t), m.live[r2].carries(t)]
        m.live.dom().contains(r1) && m.live.dom().contains(r2) && m.live[r1].carries(t)
            && m.live[r2].carries(t) implies r1 == r2 by {
        let i = place(regions, r1);
        let j = place(regions, r2);
        lemma_place(regions, i);
        lemma_place(regions, j);
        assert(regions[i].token == Some(t));
        assert(regions[j].token == Some(t));
    }
}

proof fn lemma_update(before: Seq<Region>, at: int, region: Region, next: nat)
    requires
        sound(before, next),
        0 <= at < before.len(),
        region.id == before[at].id,
        region.sound(),
        region.token == before[at].token || (region.token is Some && forall|i: int|
            0 <= i < before.len() ==> (#[trigger] before[i]).token != region.token),
    ensures
        sound(before.update(at, region), next),
        live_of(before.update(at, region)) =~= live_of(before).insert(
            region.id as nat,
            region.state(),
        ),
{
    let after = before.update(at, region);
    assert(ascending(after)) by {
        assert forall|i: int, j: int| 0 <= i < j < after.len() implies after[i].id
            < after[j].id by {
            assert(before[i].id < before[j].id);
        }
    }
    assert forall|i: int| 0 <= i < after.len() implies (#[trigger] after[i]).id < next && after[i].sound() by {
        assert(before[i].id < next && before[i].sound());
    }
    assert forall|i: int, j: int|
        0 <= i < after.len() && 0 <= j < after.len() && (#[trigger] after[i]).token is Some
            && after[i].token == (#[trigger] after[j]).token implies i == j by {
        assert(before[i].token == before[i].token && before[j].token == before[j].token);
    }
    assert forall|r: nat| holds(after, r) <==> holds(before, r) by {
        if holds(after, r) {
            let i = place(after, r);
            assert(before[i].id == r);
        }
        if holds(before, r) {
            let i = place(before, r);
            assert(after[i].id == r);
        }
    }
    assert forall|r: nat| holds(before, r) implies live_of(after)[r] == live_of(before).insert(
        region.id as nat,
        region.state(),
    )[r] by {
        let i = place(before, r);
        lemma_place(before, i);
        assert(after[i].id == r);
        lemma_place(after, i);
    }
    lemma_place(before, at);
}

proof fn lemma_remove(before: Seq<Region>, at: int, next: nat)
    requires
        sound(before, next),
        0 <= at < before.len(),
    ensures
        sound(before.remove(at), next),
        live_of(before.remove(at)) =~= live_of(before).remove(before[at].id as nat),
{
    let after = before.remove(at);
    assert forall|i: int| 0 <= i < after.len() implies #[trigger] after[i] == before[if i < at {
        i
    } else {
        i + 1
    }] by {}
    assert(ascending(after)) by {
        assert forall|i: int, j: int| 0 <= i < j < after.len() implies after[i].id
            < after[j].id by {
            let i0 = if i < at { i } else { i + 1 };
            let j0 = if j < at { j } else { j + 1 };
            assert(before[i0].id < before[j0].id);
        }
    }
    assert forall|i: int| 0 <= i < after.len() implies (#[trigger] after[i]).id < next && after[i].sound() by {
        let i0 = if i < at { i } else { i + 1 };
        assert(before[i0].id < next && before[i0].sound());
    }
    assert forall|i: int, j: int|
        0 <= i < after.len() && 0 <= j < after.len() && (#[trigger] after[i]).token is Some
            && after[i].token == (#[trigger] after[j]).token implies i == j by {
        let i0 = if i < at { i } else { i + 1 };
        let j0 = if j < at { j } else { j + 1 };
        assert(before[i0].token == before[j0].token);
    }
    lemma_place(before, at);
    assert forall|r: nat| holds(after, r) <==> (holds(before, r) && r != before[at].id) by {
        if holds(after, r) {
            let i = place(after, r);
            let i0 = if i < at { i } else { i + 1 };
            assert(before[i0].id == r);
            lemma_place(before, i0);
        }
        if holds(before, r) && r != before[at].id {
            let i = place(before, r);
            let i1 = if i < at { i } else { i - 1 };
            assert(after[i1].id == r);
        }
    }
    assert forall|r: nat| holds(after, r) implies live_of(after)[r] == live_of(before)[r] by {
        let i = place(after, r);
        let i0 = if i < at { i } else { i + 1 };
        lemma_place(after, i);
        lemma_place(before, i0);
    }
}

proof fn lemma_tracks(regions: Seq<Region>, token: DropToken, next: nat)
    requires
        ascending(regions),
    ensures
        (LedgerModel { next, live: live_of(regions) }).tracks(token) <==> exists|i: int|
            0 <= i < regions.len() && (#[trigger] regions[i]).token == Some(token),
{
    let m = LedgerModel { next, live: live_of(regions) };
    if m.tracks(token) {
        let r = choose|r: nat| m.live.dom().contains(r) && #[trigger] m.live[r].carries(token);
        let i = place(regions, r);
        lemma_place(regions, i);
        assert(regions[i].token == Some(token));
    }
    if exists|i: int| 0 <= i < regions.len() && (#[trigger] regions[i]).token == Some(token) {
        let i = choose|i: int| 0 <= i < regions.len() && (#[trigger] regions[i]).token == Some(token);
        lemma_place(regions, i);
        assert(m.live[regions[i].id as nat].carries(token));
    }
}

impl LedgerModel {
    pub proof fn lemma_allocate_wf(self, size: nat)
        requires
            self.wf(),
        ensures
            self.allocate(size).wf(),
            self.allocate(size).live.dom().contains(self.next),
            !self.allocate(size).released(self.next),
    {
        let after = self.allocate(size);
        assert forall|r1: nat, r2: nat, t: DropToken|
            #![trigger after.live[r1].carries(t), after.live[r2].carries(t)]
            after.live.dom().contains(r1) && after.live.dom().contains(r2) && after.live[r1].carries(
                t,
            ) && after.live[r2].carries(t) implies r1 == r2 by {
            assert(self.live[r1].carries(t) && self.live[r2].carries(t));
        }
    }

    pub proof fn lemma_publish_wf(self, region: nat, consumers: Set<Seq<char>>, token: DropToken)
        requires
            self.wf(),
            self.publish_error(region, token) is None,
        ensures
            self.publish(region, consumers, token).wf(),
    {
        let after = self.publish(region, consumers, token);
        assert forall|r1: nat, r2: nat, t: DropToken|
            #![trigger after.live[r1].carries(t), after.live[r2].carries(t)]
            after.live.dom().contains(r1) && after.live.dom().contains(r2) && after.live[r1].carries(
                t,
            ) && after.live[r2].carries(t) implies r1 == r2 by {
            if r1 != region && r2 != region {
                assert(self.live[r1].carries(t) && self.live[r2].carries(t));
            } else if r1 != region {
                assert(self.live[r1].carries(token));
            } else if r2 != region {
                assert(self.live[r2].carries(token));
            }
        }
    }

    pub proof fn lemma_acknowledge_wf(self, node: Seq<char>, token: DropToken)
        requires
            self.wf(),
        ensures
            self.acknowledge(node, token).wf(),
    {
        let after = self.acknowledge(node, token);
        assert forall|r: nat| #[trigger] after.live.dom().contains(r) implies (
        after.live[r] matches RegionState::InFlight { pending, .. } ==> !(pending =~= Set::empty())) by {
            assert(self.live.dom().contains(r));
            if self.live[r].carries(token) && self.live[r].owes(node) {
                let pending = self.live[r]->InFlight_pending;
                assert(!(pending =~= set![node]));
                let other = choose|n: Seq<char>| pending.contains(n) != set![node].contains(n);
                assert(pending.remove(node).contains(other));
            }
        }
        assert forall|r1: nat, r2: nat, t: DropToken|
            #![trigger after.live[r1].carries(t), after.live[r2].carries(t)]
            after.live.dom().contains(r1) && after.live.dom().contains(r2) && after.live[r1].carries(
                t,
            ) && after.live[r2].carries(t) implies r1 == r2 by {
            assert(self.live[r1].carries(t) && self.live[r2].carries(t));
        }
    }

    pub proof fn lemma_force_release_wf(self, node: Seq<char>)
        requires
            self.wf(),
        ensures
            self.force_release(node).wf(),
    {
        let after = self.force_release(node);
        assert forall|r: nat| #[trigger] after.live.dom().contains(r) implies (
        after.live[r] matches RegionState::InFlight { pending, .. } ==> !(pending =~= Set::empty())) by {
            assert(self.live.dom().contains(r));
            if self.live[r].owes(node) {
                let pending = self.live[r]->InFlight_pending;
                assert(!(pending =~= set![node]));
                let other = choose|n: Seq<char>| pending.contains(n) != set![node].contains(n);
                assert(pending.remove(node).contains(other));
            }
        }
        assert forall|r1: nat, r2: nat, t: DropToken|
            #![trigger after.live[r1].carries(t), after.live[r2].carries(t)]
            after.live.dom().contains(r1) && after.live.dom().contains(r2) && after.live[r1].carries(
                t,
            ) && after.live[r2].carries(t) implies r1 == r2 by {
            assert(self.live[r1].carries(t) && self.live[r2].carries(t));
        }
    }

    /// Acknowledging twice is acknowledging once.
    pub proof fn lemma_acknowledge_idempotent(self, node: Seq<char>, token: DropToken)
        ensures
            self.acknowledge(node, token).acknowledge(node, token) == self.acknowledge(node, token),
    {
        let once = self.acknowledge(node, token);
        let twice = once.acknowledge(node, token);
        assert forall|r: nat| once.live.dom().contains(r) implies twice.live.dom().contains(r)
            && twice.live[r] == once.live[r] by {
            if once.live[r].carries(token) {
                assert(self.live[r].carries(token));
                assert(!once.live[r].owes(node));
            }
        }
        assert(twice.live =~= once.live);
    }

    /// For the region that it touches, a forced release of `node` is the
    /// acknowledgment that `node` owed.
    pub proof fn lemma_force_release_acknowledges(self, region: nat, node: Seq<char>, token: DropToken)
        requires
            self.live.dom().contains(region),
            self.live[region].carries(token),
        ensures
            self.force_release(node).live.dom().contains(region) == self.acknowledge(
                node,
                token,
            ).live.dom().contains(region),
            self.force_release(node).live.dom().contains(region) ==> self.force_release(
                node,
            ).live[region] == self.acknowledge(node, token).live[region],
    {
    }

    /// A released handle stays released, whatever is done next, and cannot
    /// be published again.
    pub proof fn lemma_released_is_final(
        self,
        region: nat,
        size: nat,
        other: nat,
        consumers: Set<Seq<char>>,
        node: Seq<char>,
        token: DropToken,
    )
        requires
            self.released(region),
        ensures
            self.publish_error(region, token) == Some(LedgerError::UnknownRegion),
            self.allocate(size).released(region),
            self.publish_error(other, token) is None ==> self.publish(
                other,
                consumers,
                token,
            ).released(region),
            self.acknowledge(node, token).released(region),
            self.force_release(node).released(region),
    {
    }

    /// From `publish` on, the region is released by the acknowledgment that
    /// completes the set of its consumers, by no earlier one, and by none
    /// again: after any run of acknowledgments it is released exactly if
    /// every consumer is among them, and it went from live to released
    /// once in that case and never otherwise.
    pub proof fn lemma_released_after_all(self, region: nat, nodes: Seq<Seq<char>>, token: DropToken)
        requires
            self.wf(),
            self.live.dom().contains(region),
            self.live[region].carries(token),
        ensures
            ({
                let pending = self.live[region]->InFlight_pending;
                let after = self.acknowledge_all(nodes, token);
                &&& after.wf()
                &&& pending.subset_of(nodes.to_set()) ==> after.released(region)
                    && self.releases_during(region, nodes, token) == 1
                &&& !pending.subset_of(nodes.to_set()) ==> after.live.dom().contains(region)
                    && after.live[region] == (RegionState::InFlight {
                    size: self.live[region]->InFlight_size,
                    token,
                    pending: pending.difference(nodes.to_set()),
                }) && self.releases_during(region, nodes, token) == 0
            }),
        decreases nodes.len(),
    {
        let pending = self.live[region]->InFlight_pending;
        if nodes.len() == 0 {
            assert(nodes.to_set() =~= Set::empty());
            assert(pending.difference(nodes.to_set()) =~= pending);
            if pending.subset_of(nodes.to_set()) {
                assert(pending =~= Set::empty());
            }
        } else {
            let front = nodes.drop_last();
            let node = nodes.last();
            let before = self.acknowledge_all(front, token);
            self.lemma_released_after_all(region, front, token);
            before.lemma_acknowledge_wf(node, token);
            assert(nodes.to_set() =~= front.to_set().insert(node)) by {
                assert forall|n: Seq<char>| nodes.to_set().contains(n) implies front.to_set().insert(
                    node,
                ).contains(n) by {
                    let i = choose|i: int| 0 <= i < nodes.len() && nodes[i] == n;
                    if i < front.len() {
                        assert(front[i] == n);
                    }
                }
                assert forall|n: Seq<char>| front.to_set().insert(node).contains(n) implies nodes.to_set().contains(
                    n,
                ) by {
                    if n == node {
                        assert(nodes[nodes.len() - 1] == n);
                    } else {
                        let i = choose|i: int| 0 <= i < front.len() && front[i] == n;
                        assert(nodes[i] == n);
                    }
                }
            }
            if pending.subset_of(front.to_set()) {
                assert(pending.subset_of(nodes.to_set()));
            } else {
                let left = pending.difference(front.to_set());
                before.lemma_acknowledge_tracked(region, node, token);
                if pending.subset_of(nodes.to_set()) {
                    assert(left =~= set![node]) by {
                        let missing = choose|n: Seq<char>| pending.contains(n) && !front.to_set().contains(n);
                        assert(nodes.to_set().contains(missing));
                    }
                } else {
                    let missing = choose|n: Seq<char>| pending.contains(n) && !nodes.to_set().contains(n);
                    assert(left.contains(missing));
                    assert(!(left =~= set![node]));
                    if left.contains(node) {
                        assert(left.remove(node) =~= pending.difference(nodes.to_set()));
                    } else {
                        assert(left =~= pending.difference(nodes.to_set()));
                    }
                }
            }
        }
    }

    /// A region that is allocated and then published to a set of consumers
    /// is live until each of them has acknowledged it, is released by the
    /// acknowledgment that completes the set, and is released only once:
    /// its handle is unknown to every later `publish`.
    pub proof fn lemma_release_exactly_once(
        self,
        size: nat,
        consumers: Set<Seq<char>>,
        token: DropToken,
        nodes: Seq<Seq<char>>,
        again: DropToken,
    )
        requires
            self.wf(),
            !self.tracks(token),
            !(consumers =~= Set::empty()),
        ensures
            ({
                let region = self.next;
                let published = self.allocate(size).publish(region, consumers, token);
                let after = published.acknowledge_all(nodes, token);
                &&& self.allocate(size).publish_error(region, token) is None
                &&& after.released(region) <==> consumers.subset_of(nodes.to_set())
                &&& published.releases_during(region, nodes, token) == (if consumers.subset_of(
                    nodes.to_set(),
                ) {
                    1nat
                } else {
                    0nat
                })
                &&& after.released(region) ==> after.publish_error(region, again) == Some(
                    LedgerError::UnknownRegion,
                )
            }),
    {
        let region = self.next;
        let allocated = self.allocate(size);
        self.lemma_allocate_wf(size);
        assert(!allocated.tracks(token)) by {
            if allocated.tracks(token) {
                let r = choose|r: nat| allocated.live.dom().contains(r) && #[trigger] allocated.live[r].carries(token);
                assert(self.live.dom().contains(r) && self.live[r].carries(token));
            }
        }
        allocated.lemma_publish_wf(region, consumers, token);
        let published = allocated.publish(region, consumers, token);
        published.lemma_released_after_all(region, nodes, token);
    }

    /// What an acknowledgment releases, read off the one region that is in
    /// flight under its token.
    pub proof fn lemma_release_of(self, region: nat, node: Seq<char>, token: DropToken)
        requires
            self.wf(),
            self.live.dom().contains(region),
            self.live[region].carries(token),
            region <= u64::MAX,
        ensures
            self.release_of(node, token) == if self.live[region].owes_only(node) {
                Some(SharedMemoryId(region as u64))
            } else {
                None
            },
    {
        if exists|r: nat|
            self.live.dom().contains(r) && #[trigger] self.live[r].carries(token)
                && self.live[r].owes_only(node) {
            let r = choose|r: nat|
                self.live.dom().contains(r) && #[trigger] self.live[r].carries(token)
                    && self.live[r].owes_only(node);
            assert(self.live[r].carries(token) && self.live[region].carries(token));
            assert(r == region);
        }
    }

    pub proof fn lemma_acknowledge_tokens_wf(self, node: Seq<char>, tokens: Seq<DropToken>)
        requires
            self.wf(),
        ensures
            self.acknowledge_tokens(node, tokens).wf(),
            self.acknowledge_tokens(node, tokens).next == self.next,
        decreases tokens.len(),
    {
        if tokens.len() > 0 {
            self.lemma_acknowledge_tokens_wf(node, tokens.drop_last());
            self.acknowledge_tokens(node, tokens.drop_last()).lemma_acknowledge_wf(
                node,
                tokens.last(),
            );
        }
    }

    /// An acknowledgment under a token that nothing is in flight under
    /// changes nothing.
    pub proof fn lemma_acknowledge_untracked(self, node: Seq<char>, token: DropToken)
        requires
            !self.tracks(token),
        ensures
            self.acknowledge(node, token) == self,
    {
        assert forall|r: nat| self.live.dom().contains(r) implies !#[trigger] self.live[r].carries(token) by {}
        assert(self.acknowledge(node, token).live =~= self.live);
    }

    /// An acknowledgment touches the one region in flight under its token.
    pub proof fn lemma_acknowledge_tracked(self, region: nat, node: Seq<char>, token: DropToken)
        requires
            self.wf(),
            self.live.dom().contains(region),
            self.live[region].carries(token),
        ensures
            self.acknowledge(node, token).live =~= match self.live[region].without(node) {
                Some(state) => self.live.insert(region, state),
                None => self.live.remove(region),
            },
    {
        assert forall|r: nat| self.live.dom().contains(r) && r != region implies !#[trigger] self.live[r].carries(token) by {
            if self.live[r].carries(token) {
                assert(self.live[region].carries(token));
            }
        }
    }
}

/// The table of live shared-memory regions.
pub struct Ledger {
    next_id: u64,
    regions: Vec<Region>,
}

impl View for Ledger {
    type V = LedgerModel;

    closed spec fn view(&self) -> LedgerModel {
        LedgerModel { next: self.next_id as nat, live: live_of(self.regions@) }
    }
}

impl Ledger {
    /// The records are in order and consistent with one another.
    pub closed spec fn wf(&self) -> bool {
        sound(self.regions@, self.next_id as nat)
    }

    /// A consistent ledger shows a consistent model.
    pub proof fn lemma_model_wf(&self)
        requires
            self.wf(),
        ensures
            self@.wf(),
            self@.next <= u64::MAX,
    {
        lemma_live_sound(self.regions@, self.next_id as nat);
    }

    pub fn new() -> (ledger: Ledger)
        ensures
            ledger.wf(),
            ledger@ == LedgerModel::empty(),
    {
        let ledger = Ledger { next_id: 0, regions: Vec::new() };
        assert(ledger@.live =~= Map::empty());
        ledger
    }

    /// Reserves a region of `size` bytes under a handle never used before.
    pub fn allocate(&mut self, size: usize) -> (handle: Result<SharedMemoryId, LedgerError>)
        requires
            old(self).wf(),
        ensures
            final(self).wf(),
            old(self)@.next < u64::MAX ==> handle == Ok::<SharedMemoryId, LedgerError>(
                SharedMemoryId(old(self)@.next as u64),
            ) && final(self)@ == old(self)@.allocate(size as nat),
            old(self)@.next >= u64::MAX ==> handle == Err::<SharedMemoryId, LedgerError>(
                LedgerError::Exhausted,
            ) && final(self)@ == old(self)@,
    {
        if self.next_id == u64::MAX {
            return Err(LedgerError::Exhausted);
        }
        let id = self.next_id;
        let ghost before = self.regions@;
        self.regions.push(Region { id, size, token: None, pending: Vec::new() });
        self.next_id = id + 1;
        proof {
            let after = self.regions@;
            let at = before.len() as int;
            assert(after[at].id == id);
            assert forall|i: int| 0 <= i < after.len() implies (#[trigger] after[i]).sound() by {
                if i < at {
                    assert(after[i] == before[i]);
                }
            }
            lemma_place(after, at);
            assert forall|r: nat| holds(after, r) <==> (holds(before, r) || r == id) by {
                if holds(after, r) {
                    let i = place(after, r);
                    if i < at {
                        assert(before[i].id == r);
                    }
                }
                if holds(before, r) {
                    let i = place(before, r);
                    assert(after[i].id == r);
                }
            }
            assert forall|r: nat| holds(before, r) implies live_of(after)[r] == live_of(before)[r] by {
                let i = place(before, r);
                assert(after[i] == before[i]);
                assert(before[i].id < id);
                lemma_place(after, i);
            }
            assert(self@.live =~= old(self)@.allocate(size as nat).live);
        }
        Ok(SharedMemoryId(id))
    }

    /// Index of the record with this handle.
    fn find_region(&self, id: u64) -> (at: Option<usize>)
        ensures
            match at {
                Some(i) => i < self.regions.len() && self.regions[i as int].id == id,
                None => !holds(self.regions@, id as nat),
            },
    {
        let mut i: usize = 0;
        while i < self.regions.len()
            invariant
                i <= self.regions.len(),
                forall|j: int| 0 <= j < i ==> (#[trigger] self.regions[j]).id != id,
            decreases self.regions.len() - i,
        {
            if self.regions[i].id == id {
                return Some(i);
            }
            i += 1;
        }
        None
    }

    /// Index of the record in flight under this token.
    fn find_token(&self, token: DropToken) -> (at: Option<usize>)
        ensures
            match at {
                Some(i) => i < self.regions.len() && self.regions[i as int].token == Some(token),
                None => forall|j: int|
                    0 <= j < self.regions.len() ==> (#[trigger] self.regions[j]).token != Some(
                        token,
                    ),
            },
    {
        let mut i: usize = 0;
        while i < self.regions.len()
            invariant
                i <= self.regions.len(),
                forall|j: int| 0 <= j < i ==> (#[trigger] self.regions[j]).token != Some(token),
            decreases self.regions.len() - i,
        {
            let found = match self.regions[i].token {
                Some(t) => t == token,
                None => false,
            };
            if found {
                return Some(i);
            }
            i += 1;
        }
        None
    }

    /// Whether the handle names a region that has not been released.
    pub fn is_live(&self, region: SharedMemoryId) -> (live: bool)
        requires
            self.wf(),
        ensures
            live == self@.live.dom().contains(region.0 as nat),
    {
        match self.find_region(region.0) {
            Some(i) => {
                proof {
                    lemma_place(self.regions@, i as int);
                }
                true
            },
            None => false,
        }
    }

    /// Whether the handle was given out and its region has been released.
    pub fn is_released(&self, region: SharedMemoryId) -> (gone: bool)
        requires
            self.wf(),
        ensures
            gone == self@.released(region.0 as nat),
    {
        region.0 < self.next_id && !self.is_live(region)
    }

    /// Whether `node` still owes an acknowledgment for the region.
    pub fn owes(&self, region: SharedMemoryId, node: &NodeId) -> (owing: bool)
        requires
            self.wf(),
        ensures
            owing == (self@.live.dom().contains(region.0 as nat) && self@.live[region.0 as nat].owes(
                node@,
            )),
    {
        match self.find_region(region.0) {
            Some(i) => {
                proof {
                    lemma_place(self.regions@, i as int);
                }
                self.regions[i].token.is_some() && position_of(
                    &self.regions[i].pending,
                    node,
                ).is_some()
            },
            None => false,
        }
    }

    /// Whether some live region is in flight under the token.
    pub fn tracks(&self, token: DropToken) -> (known: bool)
        requires
            self.wf(),
        ensures
            known == self@.tracks(token),
    {
        proof {
            lemma_tracks(self.regions@, token, self.next_id as nat);
        }
        self.find_token(token).is_some()
    }

    /// The error that `publish` would answer with, if any.
    pub fn check_publish(&self, region: SharedMemoryId, token: DropToken) -> (error: Option<
        LedgerError,
    >)
        requires
            self.wf(),
        ensures
            error == self@.publish_error(region.0 as nat, token),
    {
        let at = match self.find_region(region.0) {
            Some(i) => i,
            None => {
                return Some(LedgerError::UnknownRegion);
            },
        };
        proof {
            lemma_place(self.regions@, at as int);
            lemma_tracks(self.regions@, token, self.next_id as nat);
        }
        if self.regions[at].token.is_some() {
            Some(LedgerError::AlreadyPublished)
        } else if self.find_token(token).is_some() {
            Some(LedgerError::DuplicateToken)
        } else {
            None
        }
    }

    /// Records the acknowledgments of one node for a run of tokens, and
    /// names the regions that they release.
    pub fn acknowledge_tokens(&mut self, node: &NodeId, tokens: &Vec<DropToken>) -> (released: Vec<
        SharedMemoryId,
    >)
        requires
            old(self).wf(),
        ensures
            final(self).wf(),
            final(self)@ == old(self)@.acknowledge_tokens(node@, tokens@),
            released@ == old(self)@.released_by(node@, tokens@),
    {
        let mut released: Vec<SharedMemoryId> = Vec::new();
        let mut i: usize = 0;
        while i < tokens.len()
            invariant
                i <= tokens.len(),
                self.wf(),
                self@ == old(self)@.acknowledge_tokens(node@, tokens@.subrange(0, i as int)),
                released@ == old(self)@.released_by(node@, tokens@.subrange(0, i as int)),
            decreases tokens.len() - i,
        {
            proof {
                let next = tokens@.subrange(0, i + 1);
                assert(next.drop_last() =~= tokens@.subrange(0, i as int));
                assert(next.last() == tokens[i as int]);
            }
            if let Some(region) = self.acknowledge(node, tokens[i]) {
                released.push(region);
            }
            i += 1;
        }
        assert(tokens@.subrange(0, tokens.len() as int) =~= tokens@);
        released
    }

    /// Fixes the consumers that must acknowledge the region before it is
    /// released, under `token`. With no consumer at all the region is
    /// released at once.
    pub fn publish(&mut self, region: SharedMemoryId, consumers: &Vec<NodeId>, token: DropToken) -> (done:
        Result<DropToken, LedgerError>)
        requires
            old(self).wf(),
        ensures
            final(self).wf(),
            match old(self)@.publish_error(region.0 as nat, token) {
                Some(error) => done == Err::<DropToken, LedgerError>(error) && final(self)@ == old(
                    self,
                )@,
                None => done == Ok::<DropToken, LedgerError>(token) && final(self)@ == old(
                    self,
                )@.publish(region.0 as nat, node_set(consumers@), token),
            },
    {
        let ghost before = self.regions@;
        let ghost next = self.next_id as nat;
        let at = match self.find_region(region.0) {
            Some(i) => i,
            None => {
                return Err(LedgerError::UnknownRegion);
            },
        };
        proof {
            lemma_place(before, at as int);
            lemma_tracks(before, token, next);
        }
        if self.regions[at].token.is_some() {
            return Err(LedgerError::AlreadyPublished);
        }
        if self.find_token(token).is_some() {
            return Err(LedgerError::DuplicateToken);
        }
        let pending = distinct(consumers);
        let mut record = self.regions.remove(at);
        if pending.len() == 0 {
            proof {
                lemma_node_set_empty(pending@);
                lemma_remove(before, at as int, next);
            }
            return Ok(token);
        }
        record.token = Some(token);
        record.pending = pending;
        self.regions.insert(at, record);
        proof {
            lemma_node_set_empty(pending@);
            assert(self.regions@ =~= before.update(at as int, record));
            lemma_update(before, at as int, record, next);
        }
        Ok(token)
    }

    /// Records that `node` is done with the payload behind `token`. The
    /// region is released when nobody else owes an acknowledgment; the
    /// result then names it. A repeated or stray acknowledgment does
    /// nothing.
    pub fn acknowledge(&mut self, node: &NodeId, token: DropToken) -> (released: Option<
        SharedMemoryId,
    >)
        requires
            old(self).wf(),
        ensures
            final(self).wf(),
            final(self)@ == old(self)@.acknowledge(node@, token),
            released == old(self)@.release_of(node@, token),
            match released {
                Some(region) => old(self)@.live.dom().contains(region.0 as nat) && old(
                    self,
                )@.live[region.0 as nat].carries(token) && old(
                    self,
                )@.live[region.0 as nat].owes_only(node@),
                None => forall|r: nat|
                    old(self)@.live.dom().contains(r) && #[trigger] old(self)@.live[r].carries(
                        token,
                    ) ==> !old(self)@.live[r].owes_only(node@),
            },
    {
        let ghost before = self.regions@;
        let ghost next = self.next_id as nat;
        let ghost model = self@;
        proof {
            lemma_tracks(before, token, next);
            lemma_live_sound(before, next);
        }
        let at = match self.find_token(token) {
            Some(i) => i,
            None => {
                proof {
                    model.lemma_acknowledge_untracked(node@, token);
                }
                return None;
            },
        };
        let ghost id = before[at as int].id as nat;
        proof {
            lemma_place(before, at as int);
            model.lemma_acknowledge_tracked(id, node@, token);
            model.lemma_release_of(id, node@, token);
            assert forall|r: nat| model.live.dom().contains(r) && #[trigger] model.live[r].carries(token) implies r == id by {
                assert(model.live[id].carries(token));
            }
            assert(before[at as int].sound());
        }
        let slot = match position_of(&self.regions[at].pending, node) {
            Some(j) => j,
            None => {
                assert(self@.live =~= model.acknowledge(node@, token).live);
                return None;
            },
        };
        let mut record = self.regions.remove(at);
        let ghost owing = record.pending@;
        record.pending.remove(slot);
        proof {
            lemma_node_set_remove(owing, slot as int);
            lemma_node_set_empty(record.pending@);
            lemma_remove(before, at as int, next);
            assert(node_set(owing).contains(node@));
            if record.pending.len() == 0 {
                assert(node_set(owing) =~= set![node@]) by {
                    assert(node_set(owing).remove(node@) =~= Set::empty());
                    assert forall|n: Seq<char>| node_set(owing).contains(n) implies n == node@ by {
                        if n != node@ {
                            assert(node_set(owing).remove(node@).contains(n));
                        }
                    }
                }
            } else {
                assert(!(node_set(owing) =~= set![node@])) by {
                    let other = record.pending@[0]@;
                    assert(node_set(record.pending@).contains(other));
                }
            }
        }
        if record.pending.len() == 0 {
            return Some(SharedMemoryId(record.id));
        }
        self.regions.insert(at, record);
        proof {
            assert(self.regions@ =~= before.update(at as int, record));
            lemma_update(before, at as int, record, next);
        }
        None
    }

    /// Treats every acknowledgment that `node` still owes as given, as when
    /// its session is torn down. The report lists, by rising handle, each
    /// region that waited for `node`; the caller is expected to log it, for
    /// the node may not have finished reading.
    pub fn force_release(&mut self, node: &NodeId) -> (report: Vec<ForcedAck>)
        requires
            old(self).wf(),
        ensures
            final(self).wf(),
            final(self)@ == old(self)@.force_release(node@),
            old(self)@.reports_forced(node@, report@),
    {
        let ghost before = self.regions@;
        let ghost next = self.next_id as nat;
        let mut rest: Vec<Region> = Vec::new();
        core::mem::swap(&mut self.regions, &mut rest);
        let mut report: Vec<ForcedAck> = Vec::new();
        let ghost origin: Seq<int> = Seq::empty();
        let ghost cause: Seq<int> = Seq::empty();
        for record in it: rest
            invariant
                it.seq() == before,
                next == self.next_id as nat,
                sound(before, next),
                sound(self.regions@, next),
                origin.len() == self.regions.len(),
                cause.len() == report.len(),
                forall|m: int|
                    0 <= m < origin.len() ==> {
                        &&& 0 <= #[trigger] origin[m] < it.index()
                        &&& self.regions[m].id == before[origin[m]].id
                        &&& self.regions[m].token == before[origin[m]].token
                        &&& before[origin[m]].state().without(node@) == Some(
                            self.regions[m].state(),
                        )
                    },
                forall|j: int|
                    0 <= j < it.index() && (#[trigger] before[j]).state().without(node@) is Some
                        ==> holds(self.regions@, before[j].id as nat),
                forall|k: int|
                    0 <= k < cause.len() ==> {
                        &&& 0 <= #[trigger] cause[k] < it.index()
                        &&& report[k].region.0 == before[cause[k]].id
                        &&& before[cause[k]].token == Some(report[k].token)
                        &&& before[cause[k]].state().owes(node@)
                        &&& report[k].released == before[cause[k]].state().owes_only(node@)
                    },
                forall|a: int, b: int| 0 <= a < b < cause.len() ==> cause[a] < cause[b],
                forall|j: int|
                    0 <= j < it.index() && (#[trigger] before[j]).state().owes(node@)
                        ==> exists|k: int| 0 <= k < report.len() && (#[trigger] report[k]).region.0 == before[j].id,
        {
            let ghost at = it.index() as int;
            let ghost kept = self.regions@;
            let ghost told = report@;
            let mut record = record;
            assert(record == before[at]);
            assert(before[at].sound());
            let slot = match record.token {
                Some(token) => match position_of(&record.pending, node) {
                    Some(j) => Some((token, j)),
                    None => None,
                },
                None => None,
            };
            match slot {
                None => {
                    self.regions.push(record);
                    proof {
                        origin = origin.push(at);
                        assert(before[at].state().without(node@) == Some(before[at].state()));
                    }
                },
                Some((token, j)) => {
                    let ghost owing = record.pending@;
                    record.pending.remove(j);
                    let released = record.pending.len() == 0;
                    proof {
                        lemma_node_set_remove(owing, j as int);
                        lemma_node_set_empty(record.pending@);
                        assert(node_set(owing).contains(node@));
                        if released {
                            assert(node_set(owing) =~= set![node@]) by {
                                assert forall|n: Seq<char>| node_set(owing).contains(n) implies n == node@ by {
                                    if n != node@ {
                                        assert(node_set(owing).remove(node@).contains(n));
                                    }
                                }
                            }
                        } else {
                            assert(!(node_set(owing) =~= set![node@])) by {
                                let other = record.pending@[0]@;
                                assert(node_set(record.pending@).contains(other));
                            }
                        }
                        cause = cause.push(at);
                    }
                    report.push(ForcedAck { region: SharedMemoryId(record.id), token, released });
                    if !released {
                        self.regions.push(record);
                        proof {
                            origin = origin.push(at);
                        }
                    }
                },
            }
            proof {
                let grown = self.regions@;
                assert forall|m: int| 0 <= m < kept.len() implies grown[m] == kept[m] by {}
                assert forall|k: int| 0 <= k < told.len() implies report[k] == told[k] by {}
                if grown.len() > kept.len() {
                    let fresh = grown[kept.len() as int];
                    assert(fresh.id == before[at].id);
                    assert(ascending(grown)) by {
                        assert forall|a: int, b: int| 0 <= a < b < grown.len() implies grown[a].id
                            < grown[b].id by {
                            if b == kept.len() {
                                assert(before[origin[a]].id < before[at].id);
                            } else {
                                assert(kept[a].id < kept[b].id);
                            }
                        }
                    }
                    assert forall|a: int, b: int|
                        0 <= a < grown.len() && 0 <= b < grown.len() && (
                        #[trigger] grown[a]).token is Some && grown[a].token == (
                        #[trigger] grown[b]).token implies a == b by {
                        assert(before[origin[a]].token == before[origin[b]].token);
                        assert(origin[a] == origin[b]);
                        if a < b {
                            assert(grown[a].id < grown[b].id);
                        } else if b < a {
                            assert(grown[b].id < grown[a].id);
                        }
                    }
                    assert forall|m: int| 0 <= m < grown.len() implies (#[trigger] grown[m]).id
                        < next && grown[m].sound() by {
                        if m < kept.len() {
                            assert(kept[m].sound());
                        } else {
                            assert(before[at].id < next);
                        }
                    }
                }
                assert forall|j: int|
                    0 <= j < at + 1 && (#[trigger] before[j]).state().without(node@) is Some implies holds(
                    grown,
                    before[j].id as nat,
                ) by {
                    if j < at {
                        let m = place(kept, before[j].id as nat);
                        assert(grown[m].id == before[j].id);
                    } else {
                        assert(grown[kept.len() as int].id == before[at].id);
                    }
                }
                assert forall|j: int|
                    0 <= j < at + 1 && (#[trigger] before[j]).state().owes(node@) implies exists|k: int|
                    0 <= k < report.len() && (#[trigger] report[k]).region.0 == before[j].id by {
                    if j < at {
                        let k = choose|k: int| 0 <= k < told.len() && (#[trigger] told[k]).region.0 == before[j].id;
                        assert(report[k].region.0 == before[j].id);
                    } else {
                        assert(report[told.len() as int].region.0 == before[at].id);
                    }
                }
            }
        }
        proof {
            let after = self.regions@;
            let old_live = live_of(before);
            let want = old(self)@.force_release(node@).live;
            assert forall|r: nat| holds(after, r) <==> (holds(before, r) && old_live[r].without(
                node@,
            ) is Some) by {
                if holds(after, r) {
                    let m = place(after, r);
                    lemma_place(before, origin[m]);
                }
                if holds(before, r) {
                    lemma_place(before, place(before, r));
                }
            }
            assert forall|r: nat| holds(after, r) implies live_of(after)[r] == old_live[r].without(
                node@,
            ).unwrap() by {
                let m = place(after, r);
                lemma_place(after, m);
                lemma_place(before, origin[m]);
            }
            assert(live_of(after) =~= want);
            assert forall|k: int| 0 <= k < report.len() implies {
                let region = (#[trigger] report[k]).region.0 as nat;
                &&& old_live.dom().contains(region)
                &&& old_live[region].owes(node@)
                &&& old_live[region].carries(report[k].token)
                &&& report[k].released == old_live[region].owes_only(node@)
            } by {
                lemma_place(before, cause[k]);
            }
            assert forall|r: nat| old_live.dom().contains(r) && #[trigger] old_live[r].owes(node@) implies exists|k: int|
                0 <= k < report.len() && (#[trigger] report[k]).region.0 == r by {
                lemma_place(before, place(before, r));
            }
            assert forall|a: int, b: int| 0 <= a < b < report.len() implies (#[trigger] report[a]).region.0 < (
            #[trigger] report[b]).region.0 by {
                assert(cause[a] < cause[b]);
                assert(before[cause[a]].id < before[cause[b]].id);
            }
        }
        report
    }
}

} // verus!
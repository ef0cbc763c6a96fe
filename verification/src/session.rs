//! The daemon's record of one connected node: where it stands in its
//! lifecycle, the events that wait for it, the inputs that are still open,
//! and the drop tokens that it owes.

use vstd::prelude::*;
use crate::config::{DataId, InputMapping, NodeId};
use crate::daemon_messages::{
    events_view, payload_view, Data, DataView, DataflowId, DropToken, Metadata, NodeDropEvent,
    NodeEvent, NodeEventView,
};
use crate::ledger::{Ledger, LedgerModel};

verus! {

/// Where a node stands in its lifecycle.
#[derive(Debug, Clone, Copy, PartialEq, Eq, Structural)]
pub enum SessionState {
    /// Spawned; has not registered.
    Unregistered,
    /// Registered; events for it are not queued yet.
    Registered,
    /// Subscribed; events are queued as they arise.
    Subscribed,
    /// Told to stop, or done with its outputs; still fetching events.
    Draining,
    /// Gone.
    Closed,
}

/// The sequence without any occurrence of `x`.
pub open spec fn strike<T>(s: Seq<T>, x: T) -> Seq<T>
    decreases s.len(),
{
    if s.len() == 0 {
        s
    } else if s.last() == x {
        strike(s.drop_last(), x)
    } else {
        strike(s.drop_last(), x).push(s.last())
    }
}

pub proof fn lemma_strike_push<T>(s: Seq<T>, y: T, x: T)
    ensures
        strike(s.push(y), x) == if y == x {
            strike(s, x)
        } else {
            strike(s, x).push(y)
        },
{
    assert(s.push(y).drop_last() =~= s);
}

pub proof fn lemma_strike_contains<T>(s: Seq<T>, x: T)
    ensures
        !strike(s, x).contains(x),
        forall|y: T| y != x ==> (#[trigger] strike(s, x).contains(y) <==> s.contains(y)),
        !s.contains(x) ==> strike(s, x) == s,
        strike(s, x).len() <= s.len(),
    decreases s.len(),
{
    if s.len() > 0 {
        let front = s.drop_last();
        lemma_strike_contains(front, x);
        let out = strike(s, x);
        assert forall|y: T| y != x implies (#[trigger] out.contains(y) <==> s.contains(y)) by {
            if out.contains(y) {
                let i = choose|i: int| 0 <= i < out.len() && out[i] == y;
                if s.last() != x && i == out.len() - 1 {
                    assert(s[s.len() - 1] == y);
                } else {
                    assert(strike(front, x)[i] == y);
                    assert(strike(front, x).contains(y));
                    assert(front.contains(y));
                    let j = choose|j: int| 0 <= j < front.len() && front[j] == y;
                    assert(s[j] == y);
                }
            }
            if s.contains(y) {
                let j = choose|j: int| 0 <= j < s.len() && s[j] == y;
                if j == s.len() - 1 {
                    assert(out[out.len() - 1] == y);
                } else {
                    assert(front[j] == y);
                    assert(strike(front, x).contains(y));
                    let i = choose|i: int| 0 <= i < strike(front, x).len() && strike(front, x)[i] == y;
                    assert(out[i] == y);
                }
            }
        }
        if out.contains(x) {
            let i = choose|i: int| 0 <= i < out.len() && out[i] == x;
            assert(strike(front, x)[i] == x);
            assert(strike(front, x).contains(x));
        }
        if !s.contains(x) {
            assert(s[s.len() - 1] != x);
            assert(!front.contains(x)) by {
                if front.contains(x) {
                    let j = choose|j: int| 0 <= j < front.len() && front[j] == x;
                    assert(s[j] == x);
                }
            }
            assert(out =~= s);
        }
    }
}

/// The names of the declared inputs, in order.
pub open spec fn input_names(inputs: Seq<InputMapping>) -> Seq<Seq<char>> {
    inputs.map_values(|input: InputMapping| input.id@)
}

/// The names that a list of data identifiers spells, in order.
pub open spec fn names_of(ids: Seq<DataId>) -> Seq<Seq<char>> {
    ids.map_values(|id: DataId| id@)
}

/// The tokens among `sent` under which nothing is in flight any more, in
/// order.
pub open spec fn dropped(sent: Seq<DropToken>, ledger: LedgerModel) -> Seq<DropToken>
    decreases sent.len(),
{
    if sent.len() == 0 {
        sent
    } else if ledger.tracks(sent.last()) {
        dropped(sent.drop_last(), ledger)
    } else {
        dropped(sent.drop_last(), ledger).push(sent.last())
    }
}

/// The tokens among `sent` under which a region is still in flight, in
/// order.
pub open spec fn in_flight(sent: Seq<DropToken>, ledger: LedgerModel) -> Seq<DropToken>
    decreases sent.len(),
{
    if sent.len() == 0 {
        sent
    } else if ledger.tracks(sent.last()) {
        in_flight(sent.drop_last(), ledger).push(sent.last())
    } else {
        in_flight(sent.drop_last(), ledger)
    }
}

/// One `OutputDropped` for each token, in order.
pub open spec fn drop_events(tokens: Seq<DropToken>) -> Seq<NodeDropEvent> {
    tokens.map_values(|token: DropToken| NodeDropEvent::OutputDropped { drop_token: token })
}

/// A session as a mathematical value.
pub struct SessionModel {
    pub node_id: Seq<char>,
    pub dataflow_id: DataflowId,
    pub state: SessionState,
    /// The events that wait to be fetched, oldest first.
    pub inbox: Seq<NodeEventView>,
    /// The declared inputs that no producer has closed.
    pub open_inputs: Seq<Seq<char>>,
    /// The tokens that were handed to the node and that it has not reported.
    pub owed: Seq<DropToken>,
    /// The tokens of the node's own shared-memory outputs of which it has
    /// not been told that they were dropped.
    pub sent: Seq<DropToken>,
    pub drop_subscribed: bool,
    /// Whether the node was told to stop.
    pub stop_requested: bool,
}

impl SessionModel {
    pub open spec fn fresh(node_id: Seq<char>, dataflow_id: DataflowId, inputs: Seq<Seq<char>>)
        -> SessionModel {
        SessionModel {
            node_id,
            dataflow_id,
            state: SessionState::Unregistered,
            inbox: Seq::empty(),
            open_inputs: inputs,
            owed: Seq::empty(),
            sent: Seq::empty(),
            drop_subscribed: false,
            stop_requested: false,
        }
    }

    /// Events are queued for the node.
    pub open spec fn accepts(self) -> bool {
        self.state == SessionState::Subscribed || self.state == SessionState::Draining
    }

    /// The node is connected: registered and not gone.
    pub open spec fn connected(self) -> bool {
        self.state == SessionState::Registered || self.accepts()
    }

    /// An `Input` on `input` would be queued.
    pub open spec fn listening(self, input: Seq<char>) -> bool {
        self.accepts() && self.open_inputs.contains(input)
    }

    pub open spec fn register(self) -> SessionModel {
        SessionModel { state: SessionState::Registered, ..self }
    }

    pub open spec fn subscribe(self) -> SessionModel {
        SessionModel {
            state: SessionState::Subscribed,
            inbox: if self.open_inputs.len() == 0 {
                self.inbox.push(NodeEventView::AllInputsClosed)
            } else {
                self.inbox
            },
            ..self
        }
    }

    /// The event is appended to the inbox, and its token to the tokens
    /// owed, if events are queued for the node at all.
    pub open spec fn queue(self, event: NodeEventView) -> SessionModel {
        if self.accepts() {
            SessionModel {
                inbox: self.inbox.push(event),
                owed: match event.drop_token() {
                    Some(token) => self.owed.push(token),
                    None => self.owed,
                },
                ..self
            }
        } else {
            self
        }
    }

    /// One `Input` for each open input that listens to `output` of
    /// `source`, in the order in which the inputs are declared.
    pub open spec fn deliver(
        self,
        inputs: Seq<InputMapping>,
        source: Seq<char>,
        output: Seq<char>,
        metadata: Seq<u8>,
        data: Option<DataView>,
    ) -> SessionModel
        decreases inputs.len(),
    {
        if inputs.len() == 0 {
            self
        } else {
            let before = self.deliver(inputs.drop_last(), source, output, metadata, data);
            let input = inputs.last();
            if input.listens_to(source, output) && self.listening(input.id@) {
                before.queue(NodeEventView::Input { id: input.id@, metadata, data })
            } else {
                before
            }
        }
    }

    /// Some open input listens to `output` of `source`.
    pub open spec fn receives(self, inputs: Seq<InputMapping>, source: Seq<char>, output: Seq<char>)
        -> bool {
        exists|k: int|
            0 <= k < inputs.len() && (#[trigger] inputs[k]).listens_to(source, output)
                && self.listening(inputs[k].id@)
    }

    /// The input is closed: it is struck from the open inputs, the node is
    /// told so, and told too when that was its last open input. Closing an
    /// input that is not open does nothing.
    pub open spec fn close_input(self, input: Seq<char>) -> SessionModel {
        if !self.open_inputs.contains(input) {
            self
        } else {
            let open = strike(self.open_inputs, input);
            let told = self.inbox.push(NodeEventView::InputClosed { id: input });
            SessionModel {
                open_inputs: open,
                inbox: if !self.accepts() {
                    self.inbox
                } else if open.len() == 0 {
                    told.push(NodeEventView::AllInputsClosed)
                } else {
                    told
                },
                ..self
            }
        }
    }

    /// Every input that listens to `output` of `source` is closed, in the
    /// order in which the inputs are declared.
    pub open spec fn close_source(self, inputs: Seq<InputMapping>, source: Seq<char>, output: Seq<char>)
        -> SessionModel
        decreases inputs.len(),
    {
        if inputs.len() == 0 {
            self
        } else {
            let before = self.close_source(inputs.drop_last(), source, output);
            let input = inputs.last();
            if input.listens_to(source, output) {
                before.close_input(input.id@)
            } else {
                before
            }
        }
    }

    /// Each of the outputs of `source` is closed in turn.
    pub open spec fn close_outputs_of(
        self,
        inputs: Seq<InputMapping>,
        source: Seq<char>,
        outputs: Seq<Seq<char>>,
    ) -> SessionModel
        decreases outputs.len(),
    {
        if outputs.len() == 0 {
            self
        } else {
            self.close_outputs_of(inputs, source, outputs.drop_last()).close_source(
                inputs,
                source,
                outputs.last(),
            )
        }
    }

    /// The node is told to stop. One that fetches events finds `Stop` in
    /// its inbox and is draining from then on.
    pub open spec fn request_stop(self) -> SessionModel {
        if self.state == SessionState::Closed {
            self
        } else if self.accepts() {
            SessionModel {
                inbox: self.inbox.push(NodeEventView::Stop),
                state: SessionState::Draining,
                stop_requested: true,
                ..self
            }
        } else {
            SessionModel { stop_requested: true, ..self }
        }
    }

    pub open spec fn outputs_done(self) -> SessionModel {
        if self.state == SessionState::Subscribed {
            SessionModel { state: SessionState::Draining, ..self }
        } else {
            self
        }
    }

    /// The inbox is handed out and left empty.
    pub open spec fn drain(self) -> SessionModel {
        SessionModel { inbox: Seq::empty(), ..self }
    }

    pub open spec fn acknowledge(self, token: DropToken) -> SessionModel {
        SessionModel { owed: strike(self.owed, token), ..self }
    }

    pub open spec fn acknowledge_all(self, tokens: Seq<DropToken>) -> SessionModel
        decreases tokens.len(),
    {
        if tokens.len() == 0 {
            self
        } else {
            self.acknowledge_all(tokens.drop_last()).acknowledge(tokens.last())
        }
    }

    pub open spec fn subscribe_drop(self) -> SessionModel {
        SessionModel { drop_subscribed: true, ..self }
    }

    /// The tokens that were reported as dropped are forgotten.
    pub open spec fn settle(self, ledger: LedgerModel) -> SessionModel {
        SessionModel { sent: in_flight(self.sent, ledger), ..self }
    }

    pub open spec fn note_sent(self, token: DropToken) -> SessionModel {
        SessionModel { sent: self.sent.push(token), ..self }
    }

    pub open spec fn close(self) -> SessionModel {
        SessionModel {
            state: SessionState::Closed,
            inbox: Seq::empty(),
            owed: Seq::empty(),
            sent: Seq::empty(),
            ..self
        }
    }
}

/// One thing that happens to an inbox: an event is queued, or the node
/// fetches what has gathered.
pub enum InboxStep {
    Queue(NodeEventView),
    Fetch,
}

/// The events that the steps queue, in order.
pub open spec fn queued_by(steps: Seq<InboxStep>) -> Seq<NodeEventView>
    decreases steps.len(),
{
    if steps.len() == 0 {
        Seq::empty()
    } else {
        match steps.last() {
            InboxStep::Queue(event) => queued_by(steps.drop_last()).push(event),
            InboxStep::Fetch => queued_by(steps.drop_last()),
        }
    }
}

/// The session after the steps.
pub open spec fn session_after(start: SessionModel, steps: Seq<InboxStep>) -> SessionModel
    decreases steps.len(),
{
    if steps.len() == 0 {
        start
    } else {
        match steps.last() {
            InboxStep::Queue(event) => session_after(start, steps.drop_last()).queue(event),
            InboxStep::Fetch => session_after(start, steps.drop_last()).drain(),
        }
    }
}

/// The events that the fetches among the steps hand out, batch after batch.
pub open spec fn fetched_by(start: SessionModel, steps: Seq<InboxStep>) -> Seq<NodeEventView>
    decreases steps.len(),
{
    if steps.len() == 0 {
        Seq::empty()
    } else {
        match steps.last() {
            InboxStep::Queue(_) => fetched_by(start, steps.drop_last()),
            InboxStep::Fetch => fetched_by(start, steps.drop_last()) + session_after(
                start,
                steps.drop_last(),
            ).inbox,
        }
    }
}

/// A node is handed its events in the order in which they were queued,
/// however the fetches fall between them: what was fetched so far, followed
/// by what still waits, is what waited at the start followed by what was
/// queued since.
pub proof fn lemma_inbox_is_fifo(start: SessionModel, steps: Seq<InboxStep>)
    requires
        start.accepts(),
    ensures
        session_after(start, steps).accepts(),
        fetched_by(start, steps) + session_after(start, steps).inbox == start.inbox + queued_by(
            steps,
        ),
    decreases steps.len(),
{
    if steps.len() == 0 {
        assert(Seq::<NodeEventView>::empty() + start.inbox =~= start.inbox + Seq::<
            NodeEventView,
        >::empty());
    } else {
        let front = steps.drop_last();
        lemma_inbox_is_fifo(start, front);
        let before = session_after(start, front);
        match steps.last() {
            InboxStep::Queue(event) => {
                assert(fetched_by(start, front) + before.inbox.push(event) =~= (fetched_by(
                    start,
                    front,
                ) + before.inbox).push(event));
                assert(start.inbox + queued_by(front).push(event) =~= (start.inbox + queued_by(
                    front,
                )).push(event));
            },
            InboxStep::Fetch => {
                assert(fetched_by(start, front) + before.inbox + Seq::<NodeEventView>::empty()
                    =~= fetched_by(start, front) + before.inbox);
            },
        }
    }
}

/// The daemon's record of one node.
pub struct NodeSession {
    node_id: NodeId,
    dataflow_id: DataflowId,
    state: SessionState,
    inbox: Vec<NodeEvent>,
    open_inputs: Vec<DataId>,
    owed: Vec<DropToken>,
    sent: Vec<DropToken>,
    drop_subscribed: bool,
    stop_requested: bool,
}

impl View for NodeSession {
    type V = SessionModel;

    closed spec fn view(&self) -> SessionModel {
        SessionModel {
            node_id: self.node_id@,
            dataflow_id: self.dataflow_id,
            state: self.state,
            inbox: events_view(self.inbox@),
            open_inputs: names_of(self.open_inputs@),
            owed: self.owed@,
            sent: self.sent@,
            drop_subscribed: self.drop_subscribed,
            stop_requested: self.stop_requested,
        }
    }
}

/// The list without any occurrence of `token`.
pub fn strike_token(tokens: &Vec<DropToken>, token: DropToken) -> (out: Vec<DropToken>)
    ensures
        out@ == strike(tokens@, token),
{
    let mut out: Vec<DropToken> = Vec::new();
    let mut i: usize = 0;
    while i < tokens.len()
        invariant
            i <= tokens.len(),
            out@ == strike(tokens@.subrange(0, i as int), token),
        decreases tokens.len() - i,
    {
        proof {
            assert(tokens@.subrange(0, i + 1) =~= tokens@.subrange(0, i as int).push(
                tokens[i as int],
            ));
            lemma_strike_push(tokens@.subrange(0, i as int), tokens[i as int], token);
        }
        if tokens[i] != token {
            out.push(tokens[i]);
        }
        i += 1;
    }
    assert(tokens@.subrange(0, tokens.len() as int) =~= tokens@);
    out
}

/// Whether the name is in the list.
fn has_name(ids: &Vec<DataId>, id: &DataId) -> (found: bool)
    ensures
        found == names_of(ids@).contains(id@),
{
    let mut i: usize = 0;
    while i < ids.len()
        invariant
            i <= ids.len(),
            forall|j: int| 0 <= j < i ==> names_of(ids@)[j] != id@,
        decreases ids.len() - i,
    {
        if ids[i].same(id) {
            assert(names_of(ids@)[i as int] == id@);
            return true;
        }
        i += 1;
    }
    false
}

/// The list without any occurrence of the name.
fn strike_name(ids: Vec<DataId>, id: &DataId) -> (out: Vec<DataId>)
    ensures
        names_of(out@) == strike(names_of(ids@), id@),
{
    let mut out: Vec<DataId> = Vec::new();
    let ghost all = ids@;
    for item in it: ids
        invariant
            it.seq() == all,
            names_of(out@) == strike(names_of(all.subrange(0, it.index() as int)), id@),
    {
        let ghost i = it.index() as int;
        let ghost kept = out@;
        proof {
            assert(all.subrange(0, i + 1) =~= all.subrange(0, i).push(all[i]));
            assert(names_of(all.subrange(0, i).push(all[i])) =~= names_of(all.subrange(0, i)).push(
                all[i]@,
            ));
            lemma_strike_push(names_of(all.subrange(0, i)), all[i]@, id@);
        }
        if !item.same(id) {
            out.push(item);
            assert(names_of(kept.push(item)) =~= names_of(kept).push(item@));
        }
    }
    assert(all.subrange(0, all.len() as int) =~= all);
    out
}

/// A copy of the list that spells the same names.
pub fn copy_ids(ids: &Vec<DataId>) -> (out: Vec<DataId>)
    ensures
        names_of(out@) == names_of(ids@),
{
    let mut out: Vec<DataId> = Vec::new();
    let mut i: usize = 0;
    while i < ids.len()
        invariant
            i <= ids.len(),
            names_of(out@) == names_of(ids@.subrange(0, i as int)),
        decreases ids.len() - i,
    {
        let ghost kept = out@;
        let copy = ids[i].duplicate();
        out.push(copy);
        proof {
            assert(ids@.subrange(0, i + 1) =~= ids@.subrange(0, i as int).push(ids[i as int]));
            assert(names_of(kept.push(copy)) =~= names_of(kept).push(copy@));
            assert(names_of(ids@.subrange(0, i as int).push(ids[i as int])) =~= names_of(
                ids@.subrange(0, i as int),
            ).push(ids[i as int]@));
        }
        i += 1;
    }
    assert(ids@.subrange(0, ids.len() as int) =~= ids@);
    out
}

impl NodeSession {
    /// The record of a node that was spawned and has not registered, with
    /// every declared input open.
    pub fn new(node_id: NodeId, dataflow_id: DataflowId, inputs: &Vec<InputMapping>) -> (session:
        NodeSession)
        ensures
            session@ == SessionModel::fresh(node_id@, dataflow_id, input_names(inputs@)),
    {
        let mut open: Vec<DataId> = Vec::new();
        let mut i: usize = 0;
        while i < inputs.len()
            invariant
                i <= inputs.len(),
                names_of(open@) == input_names(inputs@.subrange(0, i as int)),
            decreases inputs.len() - i,
        {
            let ghost kept = open@;
            let copy = inputs[i].id.duplicate();
            open.push(copy);
            proof {
                assert(inputs@.subrange(0, i + 1) =~= inputs@.subrange(0, i as int).push(
                    inputs[i as int],
                ));
                assert(names_of(kept.push(copy)) =~= names_of(kept).push(copy@));
                assert(input_names(inputs@.subrange(0, i as int).push(inputs[i as int]))
                    =~= input_names(inputs@.subrange(0, i as int)).push(inputs[i as int].id@));
            }
            i += 1;
        }
        assert(inputs@.subrange(0, inputs.len() as int) =~= inputs@);
        let session = NodeSession {
            node_id,
            dataflow_id,
            state: SessionState::Unregistered,
            inbox: Vec::new(),
            open_inputs: open,
            owed: Vec::new(),
            sent: Vec::new(),
            drop_subscribed: false,
            stop_requested: false,
        };
        assert(session@.inbox =~= Seq::empty());
        session
    }

    pub fn state(&self) -> (state: SessionState)
        ensures
            state == self@.state,
    {
        self.state
    }

    pub fn node_id(&self) -> (id: &NodeId)
        ensures
            id@ == self@.node_id,
    {
        &self.node_id
    }

    /// Whether events are queued for the node.
    pub fn accepts(&self) -> (yes: bool)
        ensures
            yes == self@.accepts(),
    {
        self.state == SessionState::Subscribed || self.state == SessionState::Draining
    }

    /// Whether the node was told to stop.
    pub fn stop_requested(&self) -> (yes: bool)
        ensures
            yes == self@.stop_requested,
    {
        self.stop_requested
    }

    /// How many events wait to be fetched.
    pub fn waiting(&self) -> (count: usize)
        ensures
            count == self@.inbox.len(),
    {
        self.inbox.len()
    }

    /// How many tokens the node owes.
    pub fn owed_count(&self) -> (count: usize)
        ensures
            count == self@.owed.len(),
    {
        self.owed.len()
    }

    pub fn register(&mut self)
        ensures
            final(self)@ == old(self)@.register(),
    {
        self.state = SessionState::Registered;
    }

    pub fn subscribe(&mut self)
        ensures
            final(self)@ == old(self)@.subscribe(),
    {
        let ghost before = self.inbox@;
        self.state = SessionState::Subscribed;
        if self.open_inputs.len() == 0 {
            self.inbox.push(NodeEvent::AllInputsClosed);
            assert(events_view(before.push(NodeEvent::AllInputsClosed)) =~= events_view(
                before,
            ).push(NodeEventView::AllInputsClosed));
        }
    }

    /// Appends the event to the inbox if events are queued for the node.
    pub fn queue(&mut self, event: NodeEvent)
        ensures
            final(self)@ == old(self)@.queue(event@),
    {
        if self.accepts() {
            let ghost before = self.inbox@;
            let token = match &event {
                NodeEvent::Input { data: Some(data), .. } => data.drop_token(),
                _ => None,
            };
            if let Some(token) = token {
                self.owed.push(token);
            }
            self.inbox.push(event);
            assert(events_view(before.push(event)) =~= events_view(before).push(event@));
        }
    }

    /// Queues one `Input` for each open input that listens to `output` of
    /// `source`, and says whether there was one.
    pub fn deliver(
        &mut self,
        inputs: &Vec<InputMapping>,
        source: &NodeId,
        output: &DataId,
        metadata: &Metadata,
        data: &Option<Data>,
    ) -> (received: bool)
        ensures
            final(self)@ == old(self)@.deliver(
                inputs@,
                source@,
                output@,
                metadata@,
                payload_view(*data),
            ),
            received == old(self)@.receives(inputs@, source@, output@),
    {
        let mut received = false;
        let mut i: usize = 0;
        while i < inputs.len()
            invariant
                i <= inputs.len(),
                self@ == old(self)@.deliver(
                    inputs@.subrange(0, i as int),
                    source@,
                    output@,
                    metadata@,
                    payload_view(*data),
                ),
                self@.state == old(self)@.state,
                self@.open_inputs == old(self)@.open_inputs,
                received == old(self)@.receives(inputs@.subrange(0, i as int), source@, output@),
            decreases inputs.len() - i,
        {
            let ghost seen = inputs@.subrange(0, i as int);
            let ghost next = inputs@.subrange(0, i + 1);
            proof {
                assert(next.drop_last() =~= seen);
                assert(next.last() == inputs[i as int]);
            }
            let input = &inputs[i];
            let hit = input.is_fed_by(source, output) && self.accepts() && has_name(
                &self.open_inputs,
                &input.id,
            );
            if hit {
                let copy = match data {
                    Some(data) => Some(data.duplicate()),
                    None => None,
                };
                self.queue(
                    NodeEvent::Input {
                        id: input.id.duplicate(),
                        metadata: metadata.duplicate(),
                        data: copy,
                    },
                );
                received = true;
                assert(next[i as int].listens_to(source@, output@));
            } else {
                proof {
                    if old(self)@.receives(next, source@, output@) {
                        let k = choose|k: int|
                            0 <= k < next.len() && (#[trigger] next[k]).listens_to(source@, output@)
                                && old(self)@.listening(next[k].id@);
                        assert(seen[k] == next[k]);
                    }
                }
            }
            proof {
                if old(self)@.receives(seen, source@, output@) {
                    let k = choose|k: int|
                        0 <= k < seen.len() && (#[trigger] seen[k]).listens_to(source@, output@)
                            && old(self)@.listening(seen[k].id@);
                    assert(next[k] == seen[k]);
                }
            }
            i += 1;
        }
        assert(inputs@.subrange(0, inputs.len() as int) =~= inputs@);
        received
    }

    /// Closes one input.
    pub fn close_input(&mut self, input: &DataId)
        ensures
            final(self)@ == old(self)@.close_input(input@),
    {
        if has_name(&self.open_inputs, input) {
            let ghost before = self.inbox@;
            let mut open: Vec<DataId> = Vec::new();
            core::mem::swap(&mut self.open_inputs, &mut open);
            self.open_inputs = strike_name(open, input);
            if self.accepts() {
                let closed = NodeEvent::InputClosed { id: input.duplicate() };
                self.inbox.push(closed);
                assert(events_view(before.push(closed)) =~= events_view(before).push(closed@));
                if self.open_inputs.len() == 0 {
                    let ghost told = self.inbox@;
                    self.inbox.push(NodeEvent::AllInputsClosed);
                    assert(events_view(told.push(NodeEvent::AllInputsClosed)) =~= events_view(
                        told,
                    ).push(NodeEventView::AllInputsClosed));
                }
            }
        }
    }

    /// Closes every input that listens to `output` of `source`.
    pub fn close_source(&mut self, inputs: &Vec<InputMapping>, source: &NodeId, output: &DataId)
        ensures
            final(self)@ == old(self)@.close_source(inputs@, source@, output@),
    {
        let mut i: usize = 0;
        while i < inputs.len()
            invariant
                i <= inputs.len(),
                self@ == old(self)@.close_source(inputs@.subrange(0, i as int), source@, output@),
            decreases inputs.len() - i,
        {
            proof {
                let next = inputs@.subrange(0, i + 1);
                assert(next.drop_last() =~= inputs@.subrange(0, i as int));
                assert(next.last() == inputs[i as int]);
            }
            if inputs[i].is_fed_by(source, output) {
                self.close_input(&inputs[i].id);
            }
            i += 1;
        }
        assert(inputs@.subrange(0, inputs.len() as int) =~= inputs@);
    }

    /// Tells the node to stop.
    pub fn request_stop(&mut self)
        ensures
            final(self)@ == old(self)@.request_stop(),
    {
        if self.state == SessionState::Closed {
            return ;
        }
        if self.accepts() {
            let ghost before = self.inbox@;
            self.inbox.push(NodeEvent::Stop);
            self.state = SessionState::Draining;
            assert(events_view(before.push(NodeEvent::Stop)) =~= events_view(before).push(
                NodeEventView::Stop,
            ));
        }
        self.stop_requested = true;
    }

    pub fn outputs_done(&mut self)
        ensures
            final(self)@ == old(self)@.outputs_done(),
    {
        if self.state == SessionState::Subscribed {
            self.state = SessionState::Draining;
        }
    }

    /// Hands out every event that waits, oldest first.
    pub fn drain(&mut self) -> (events: Vec<NodeEvent>)
        ensures
            final(self)@ == old(self)@.drain(),
            events_view(events@) == old(self)@.inbox,
    {
        let mut events: Vec<NodeEvent> = Vec::new();
        core::mem::swap(&mut self.inbox, &mut events);
        assert(events_view(self.inbox@) =~= Seq::empty());
        events
    }

    /// Strikes the token from the tokens owed.
    pub fn acknowledge(&mut self, token: DropToken)
        ensures
            final(self)@ == old(self)@.acknowledge(token),
    {
        self.owed = strike_token(&self.owed, token);
    }

    /// Strikes each of the tokens from the tokens owed.
    pub fn acknowledge_all(&mut self, tokens: &Vec<DropToken>)
        ensures
            final(self)@ == old(self)@.acknowledge_all(tokens@),
    {
        let mut i: usize = 0;
        while i < tokens.len()
            invariant
                i <= tokens.len(),
                self@ == old(self)@.acknowledge_all(tokens@.subrange(0, i as int)),
            decreases tokens.len() - i,
        {
            proof {
                let next = tokens@.subrange(0, i + 1);
                assert(next.drop_last() =~= tokens@.subrange(0, i as int));
                assert(next.last() == tokens[i as int]);
            }
            self.acknowledge(tokens[i]);
            i += 1;
        }
        assert(tokens@.subrange(0, tokens.len() as int) =~= tokens@);
    }

    /// Whether the node is registered and not gone.
    pub fn connected(&self) -> (yes: bool)
        ensures
            yes == self@.connected(),
    {
        self.state == SessionState::Registered || self.accepts()
    }

    pub fn subscribe_drop(&mut self)
        ensures
            final(self)@ == old(self)@.subscribe_drop(),
    {
        self.drop_subscribed = true;
    }

    /// Hands out one `OutputDropped` for each token that the node sent a
    /// payload under and that nothing is in flight under any more, and
    /// forgets those tokens.
    pub fn take_dropped(&mut self, ledger: &Ledger) -> (events: Vec<NodeDropEvent>)
        requires
            ledger.wf(),
        ensures
            final(self)@ == old(self)@.settle(ledger@),
            events@ == drop_events(dropped(old(self)@.sent, ledger@)),
    {
        let mut events: Vec<NodeDropEvent> = Vec::new();
        let mut kept: Vec<DropToken> = Vec::new();
        let mut i: usize = 0;
        while i < self.sent.len()
            invariant
                i <= self.sent.len(),
                ledger.wf(),
                self == old(self),
                kept@ == in_flight(self.sent@.subrange(0, i as int), ledger@),
                events@ == drop_events(dropped(self.sent@.subrange(0, i as int), ledger@)),
            decreases self.sent.len() - i,
        {
            let ghost seen = self.sent@.subrange(0, i as int);
            let token = self.sent[i];
            proof {
                let next = self.sent@.subrange(0, i + 1);
                assert(next.drop_last() =~= seen);
                assert(next.last() == token);
            }
            if ledger.tracks(token) {
                kept.push(token);
            } else {
                events.push(NodeDropEvent::OutputDropped { drop_token: token });
                assert(drop_events(dropped(seen, ledger@).push(token)) =~= drop_events(
                    dropped(seen, ledger@),
                ).push(NodeDropEvent::OutputDropped { drop_token: token }));
            }
            i += 1;
        }
        assert(self.sent@.subrange(0, self.sent.len() as int) =~= self.sent@);
        self.sent = kept;
        events
    }

    /// Notes a token that the node has sent a shared-memory payload under.
    pub fn note_sent(&mut self, token: DropToken)
        ensures
            final(self)@ == old(self)@.note_sent(token),
    {
        self.sent.push(token);
    }

    pub fn close(&mut self)
        ensures
            final(self)@ == old(self)@.close(),
    {
        self.state = SessionState::Closed;
        self.inbox = Vec::new();
        self.owed = Vec::new();
        self.sent = Vec::new();
        assert(events_view(self.inbox@) =~= Seq::empty());
    }
}

} // verus!

//! How the answers of the daemons to a start, and their reports of the end
//! of a dataflow, are gathered into the one answer that the client gets.

use vstd::prelude::*;
use crate::session::{lemma_strike_contains, lemma_strike_push, strike};
use crate::topics::{DataflowResult, StartDataflowResult};

verus! {

/// The machine names that a list of strings spells, in order.
pub open spec fn names(list: Seq<String>) -> Seq<Seq<char>> {
    list.map_values(|name: String| name@)
}

/// Striking a name from a list without repetitions leaves one without.
pub proof fn lemma_strike_distinct<T>(s: Seq<T>, x: T)
    requires
        s.no_duplicates(),
    ensures
        strike(s, x).no_duplicates(),
    decreases s.len(),
{
    if s.len() > 0 {
        let front = s.drop_last();
        lemma_strike_distinct(front, x);
        lemma_strike_contains(front, x);
        let out = strike(s, x);
        if s.last() != x {
            assert forall|i: int, j: int| 0 <= i < out.len() && 0 <= j < out.len() && i != j implies out[i]
                != out[j] by {
                if j == out.len() - 1 && i < j {
                    assert(strike(front, x).contains(out[i]));
                    assert(front.contains(out[i]));
                    let k = choose|k: int| 0 <= k < front.len() && front[k] == out[i];
                    assert(s[k] != s[s.len() - 1]);
                } else if i == out.len() - 1 && j < i {
                    assert(strike(front, x).contains(out[j]));
                    assert(front.contains(out[j]));
                    let k = choose|k: int| 0 <= k < front.len() && front[k] == out[j];
                    assert(s[k] != s[s.len() - 1]);
                } else {
                    assert(strike(front, x)[i] != strike(front, x)[j]);
                }
            }
        }
    }
}

/// Whether the name is in the list.
pub fn has_name(list: &Vec<String>, name: &String) -> (found: bool)
    ensures
        found == names(list@).contains(name@),
{
    let mut i: usize = 0;
    while i < list.len()
        invariant
            i <= list.len(),
            forall|j: int| 0 <= j < i ==> names(list@)[j] != name@,
        decreases list.len() - i,
    {
        if list[i] == *name {
            assert(names(list@)[i as int] == name@);
            return true;
        }
        i += 1;
    }
    false
}

/// The list without any occurrence of the name.
pub fn strike_name(list: Vec<String>, name: &String) -> (out: Vec<String>)
    ensures
        names(out@) == strike(names(list@), name@),
{
    let mut out: Vec<String> = Vec::new();
    let ghost all = list@;
    for item in it: list
        invariant
            it.seq() == all,
            names(out@) == strike(names(all.subrange(0, it.index() as int)), name@),
    {
        let ghost i = it.index() as int;
        let ghost kept = out@;
        proof {
            assert(all.subrange(0, i + 1) =~= all.subrange(0, i).push(all[i]));
            assert(names(all.subrange(0, i).push(all[i])) =~= names(all.subrange(0, i)).push(
                all[i]@,
            ));
            lemma_strike_push(names(all.subrange(0, i)), all[i]@, name@);
        }
        if item != *name {
            out.push(item);
            assert(names(kept.push(item)) =~= names(kept).push(item@));
        }
    }
    assert(all.subrange(0, all.len() as int) =~= all);
    out
}

/// What one daemon answers to `Spawn` or to `StopDataflow`.
pub struct Report {
    pub daemon: Seq<char>,
    pub result: Result<(), String>,
}

/// The daemons that reported, in order.
pub open spec fn reporters(reports: Seq<Report>) -> Seq<Seq<char>> {
    reports.map_values(|report: Report| report.daemon)
}

/// Every report is a success.
pub open spec fn all_ok(reports: Seq<Report>) -> bool {
    forall|i: int| 0 <= i < reports.len() ==> (#[trigger] reports[i]).result is Ok
}

/// The description in the first report of a failure.
pub open spec fn first_failure(reports: Seq<Report>) -> String
    recommends
        !all_ok(reports),
    decreases reports.len(),
{
    if reports.len() == 0 {
        arbitrary()
    } else if all_ok(reports.drop_last()) {
        reports.last().result->Err_0
    } else {
        first_failure(reports.drop_last())
    }
}

/// The daemons that reported a success.
pub open spec fn succeeded(reports: Seq<Report>) -> Set<Seq<char>> {
    Set::new(
        |daemon: Seq<char>|
            exists|i: int|
                0 <= i < reports.len() && (#[trigger] reports[i]).daemon == daemon
                    && reports[i].result is Ok,
    )
}

/// One start as a mathematical value.
pub struct StartModel {
    pub uuid: u128,
    pub name: Option<String>,
    pub client: u64,
    /// The daemons that have not answered `Spawn`.
    pub waiting: Seq<Seq<char>>,
    /// The daemons that have spawned their nodes, as long as no daemon has
    /// failed.
    pub spawned: Seq<Seq<char>>,
    /// Some daemon has failed: the start is off.
    pub aborted: bool,
}

impl StartModel {
    pub open spec fn wf(self) -> bool {
        &&& self.waiting.no_duplicates()
        &&& self.spawned.no_duplicates()
        &&& forall|d: Seq<char>| #[trigger] self.spawned.contains(d) ==> !self.waiting.contains(d)
        &&& self.aborted ==> self.spawned.len() == 0
    }

    /// Taking in an answer keeps the start consistent.
    pub proof fn lemma_record_wf(self, daemon: Seq<char>, ok: bool)
        requires
            self.wf(),
        ensures
            self.record(daemon, ok).wf(),
    {
        if self.awaits(daemon) {
            let end = self.record(daemon, ok);
            lemma_strike_contains(self.waiting, daemon);
            lemma_strike_distinct(self.waiting, daemon);
            assert forall|d: Seq<char>| #[trigger] end.spawned.contains(d) implies !end.waiting.contains(
                d,
            ) by {
                if ok && !self.aborted {
                    let k = choose|k: int| 0 <= k < end.spawned.len() && end.spawned[k] == d;
                    if k < self.spawned.len() {
                        assert(self.spawned[k] == d);
                        assert(self.spawned.contains(d));
                    }
                }
            }
            if ok && !self.aborted {
                assert forall|i: int, j: int|
                    0 <= i < end.spawned.len() && 0 <= j < end.spawned.len() && i != j implies end.spawned[i]
                    != end.spawned[j] by {
                    if i == end.spawned.len() - 1 {
                        assert(self.spawned[j] == end.spawned[j]);
                        assert(self.spawned.contains(end.spawned[j]));
                    } else if j == end.spawned.len() - 1 {
                        assert(self.spawned[i] == end.spawned[i]);
                        assert(self.spawned.contains(end.spawned[i]));
                    } else {
                        assert(self.spawned[i] != self.spawned[j]);
                    }
                }
            }
        }
    }

    /// The start as it stands when `Spawn` has gone out to `targets`.
    pub open spec fn fresh(uuid: u128, name: Option<String>, client: u64, targets: Seq<Seq<char>>)
        -> StartModel {
        StartModel { uuid, name, client, waiting: targets, spawned: Seq::empty(), aborted: false }
    }

    pub open spec fn awaits(self, daemon: Seq<char>) -> bool {
        self.waiting.contains(daemon)
    }

    /// Every daemon has answered.
    pub open spec fn settled(self) -> bool {
        self.waiting.len() == 0
    }

    pub open spec fn record(self, daemon: Seq<char>, ok: bool) -> StartModel {
        if !self.awaits(daemon) {
            self
        } else {
            StartModel {
                waiting: strike(self.waiting, daemon),
                spawned: if !ok {
                    Seq::empty()
                } else if self.aborted {
                    self.spawned
                } else {
                    self.spawned.push(daemon)
                },
                aborted: self.aborted || !ok,
                ..self
            }
        }
    }

    /// The daemons that are told to stop the dataflow because of this
    /// answer: at the first failure those that have spawned, after it each
    /// that still does.
    pub open spec fn stops(self, daemon: Seq<char>, ok: bool) -> Seq<Seq<char>> {
        if !self.awaits(daemon) {
            Seq::empty()
        } else if ok {
            if self.aborted {
                seq![daemon]
            } else {
                Seq::empty()
            }
        } else {
            self.spawned
        }
    }

    /// What the client is told because of this answer: of the start when
    /// the last daemon has spawned, of the failure when the first has
    /// failed.
    pub open spec fn reply(self, daemon: Seq<char>, result: Result<(), String>) -> Option<
        StartDataflowResult,
    > {
        if !self.awaits(daemon) || self.aborted {
            None
        } else {
            match result {
                Ok(_) => if strike(self.waiting, daemon).len() == 0 {
                    Some(StartDataflowResult::Started { uuid: self.uuid })
                } else {
                    None
                },
                Err(description) => Some(StartDataflowResult::Error(description)),
            }
        }
    }

    /// The start after the reports, in order.
    pub open spec fn after(self, reports: Seq<Report>) -> StartModel
        decreases reports.len(),
    {
        if reports.len() == 0 {
            self
        } else {
            self.after(reports.drop_last()).record(
                reports.last().daemon,
                reports.last().result is Ok,
            )
        }
    }

    /// The daemons that are told to stop in the course of the reports.
    pub open spec fn stops_during(self, reports: Seq<Report>) -> Seq<Seq<char>>
        decreases reports.len(),
    {
        if reports.len() == 0 {
            Seq::empty()
        } else {
            self.stops_during(reports.drop_last()) + self.after(reports.drop_last()).stops(
                reports.last().daemon,
                reports.last().result is Ok,
            )
        }
    }

    /// What the client is told in the course of the reports.
    pub open spec fn replies_during(self, reports: Seq<Report>) -> Seq<StartDataflowResult>
        decreases reports.len(),
    {
        if reports.len() == 0 {
            Seq::empty()
        } else {
            match self.after(reports.drop_last()).reply(
                reports.last().daemon,
                reports.last().result,
            ) {
                Some(reply) => self.replies_during(reports.drop_last()).push(reply),
                None => self.replies_during(reports.drop_last()),
            }
        }
    }

    /// Where the start stands after some of the targeted daemons have
    /// answered, each once.
    pub proof fn lemma_start_progress(self, reports: Seq<Report>)
        requires
            self.wf(),
            !self.aborted,
            self.spawned.len() == 0,
            reporters(reports).no_duplicates(),
            forall|i: int| 0 <= i < reports.len() ==> self.waiting.contains(#[trigger] reporters(reports)[i]),
        ensures
            ({
                let end = self.after(reports);
                &&& end.wf()
                &&& end.uuid == self.uuid
                &&& forall|d: Seq<char>|
                    #[trigger] end.waiting.contains(d) <==> self.waiting.contains(d) && !reporters(
                        reports,
                    ).contains(d)
                &&& end.aborted == !all_ok(reports)
                &&& !end.aborted ==> {
                    &&& forall|d: Seq<char>|
                        #[trigger] end.spawned.contains(d) <==> reporters(reports).contains(d)
                    &&& self.stops_during(reports).len() == 0
                    &&& self.replies_during(reports) == if end.settled() && reports.len() > 0 {
                        seq![StartDataflowResult::Started { uuid: self.uuid }]
                    } else {
                        Seq::<StartDataflowResult>::empty()
                    }
                }
                &&& end.aborted ==> {
                    &&& self.stops_during(reports).to_set() == succeeded(reports)
                    &&& self.replies_during(reports) == seq![
                        StartDataflowResult::Error(first_failure(reports)),
                    ]
                }
            }),
        decreases reports.len(),
    {
        if reports.len() == 0 {
            assert(self.stops_during(reports).to_set() =~= succeeded(reports));
        } else {
            let front = reports.drop_last();
            let last = reports.last();
            let ok = last.result is Ok;
            assert(reporters(front) =~= reporters(reports).drop_last());
            assert forall|i: int| 0 <= i < front.len() implies self.waiting.contains(
                #[trigger] reporters(front)[i],
            ) by {
                assert(reporters(front)[i] == reporters(reports)[i]);
            }
            assert(reporters(front).no_duplicates()) by {
                assert forall|i: int, j: int|
                    0 <= i < front.len() && 0 <= j < front.len() && i != j implies reporters(
                    front,
                )[i] != reporters(front)[j] by {
                    assert(reporters(reports)[i] != reporters(reports)[j]);
                }
            }
            self.lemma_start_progress(front);
            let before = self.after(front);
            let end = before.record(last.daemon, ok);
            assert(reporters(reports)[reports.len() - 1] == last.daemon);
            assert(!reporters(front).contains(last.daemon)) by {
                if reporters(front).contains(last.daemon) {
                    let k = choose|k: int| 0 <= k < front.len() && reporters(front)[k] == last.daemon;
                    assert(reporters(reports)[k] == reporters(reports)[reports.len() - 1]);
                }
            }
            assert(before.awaits(last.daemon));
            lemma_strike_contains(before.waiting, last.daemon);
            lemma_strike_distinct(before.waiting, last.daemon);
            before.lemma_record_wf(last.daemon, ok);
            assert forall|d: Seq<char>| #[trigger]
                end.waiting.contains(d) <==> self.waiting.contains(d) && !reporters(
                    reports,
                ).contains(d) by {
                if reporters(reports).contains(d) && d != last.daemon {
                    let k = choose|k: int| 0 <= k < reports.len() && reporters(reports)[k] == d;
                    assert(reporters(front)[k] == d);
                }
                if reporters(front).contains(d) {
                    let k = choose|k: int| 0 <= k < front.len() && reporters(front)[k] == d;
                    assert(reporters(reports)[k] == d);
                }
                if d != last.daemon {
                    assert(end.waiting.contains(d) <==> before.waiting.contains(d));
                }
            }
            assert(all_ok(reports) <==> all_ok(front) && ok) by {
                if all_ok(front) && ok {
                    assert forall|i: int| 0 <= i < reports.len() implies (
                    #[trigger] reports[i]).result is Ok by {
                        if i < front.len() {
                            assert(front[i].result is Ok);
                        }
                    }
                }
                if all_ok(reports) {
                    assert(reports[reports.len() - 1].result is Ok);
                    assert forall|i: int| 0 <= i < front.len() implies (
                    #[trigger] front[i]).result is Ok by {
                        assert(reports[i].result is Ok);
                    }
                }
            }
            let stops = self.stops_during(reports);
            let earlier = self.stops_during(front);
            if !end.aborted {
                assert forall|d: Seq<char>| #[trigger]
                    end.spawned.contains(d) <==> reporters(reports).contains(d) by {
                    if end.spawned.contains(d) {
                        let k = choose|k: int| 0 <= k < end.spawned.len() && end.spawned[k] == d;
                        if k < before.spawned.len() {
                            assert(before.spawned.contains(d));
                            let j = choose|j: int| 0 <= j < front.len() && reporters(front)[j] == d;
                            assert(reporters(reports)[j] == d);
                        }
                    }
                    if reporters(reports).contains(d) {
                        let j = choose|j: int| 0 <= j < reports.len() && reporters(reports)[j] == d;
                        if j < front.len() {
                            assert(reporters(front)[j] == d);
                            assert(before.spawned.contains(d));
                            let k = choose|k: int| 0 <= k < before.spawned.len() && before.spawned[k] == d;
                            assert(end.spawned[k] == d);
                        } else {
                            assert(end.spawned[end.spawned.len() - 1] == d);
                        }
                    }
                }
                assert(stops =~= Seq::empty());
                if before.settled() {
                    assert(before.waiting.contains(last.daemon));
                }
            } else {
                assert(stops.to_set() =~= succeeded(reports)) by {
                    assert forall|d: Seq<char>| stops.to_set().contains(d) <==> succeeded(
                        reports,
                    ).contains(d) by {
                        let step = before.stops(last.daemon, ok);
                        if stops.to_set().contains(d) {
                            let k = choose|k: int| 0 <= k < stops.len() && stops[k] == d;
                            if k < earlier.len() {
                                assert(earlier[k] == d);
                                assert(earlier.to_set().contains(d));
                                assert(succeeded(front).contains(d));
                                let j = choose|j: int|
                                    0 <= j < front.len() && (#[trigger] front[j]).daemon == d
                                        && front[j].result is Ok;
                                assert(reports[j].daemon == d && reports[j].result is Ok);
                            } else {
                                assert(step[k - earlier.len()] == d);
                                if ok {
                                    assert(reports[reports.len() - 1].daemon == d);
                                } else {
                                    assert(before.spawned.contains(d));
                                    assert(reporters(front).contains(d));
                                    let j = choose|j: int| 0 <= j < front.len() && reporters(front)[j] == d;
                                    assert(front[j].result is Ok);
                                    assert(reports[j].daemon == d && reports[j].result is Ok);
                                }
                            }
                        }
                        if succeeded(reports).contains(d) {
                            let j = choose|j: int|
                                0 <= j < reports.len() && (#[trigger] reports[j]).daemon == d
                                    && reports[j].result is Ok;
                            if j < front.len() {
                                assert(front[j].daemon == d && front[j].result is Ok);
                                assert(succeeded(front).contains(d));
                                if before.aborted {
                                    assert(earlier.to_set().contains(d));
                                    let k = choose|k: int| 0 <= k < earlier.len() && earlier[k] == d;
                                    assert(stops[k] == d);
                                } else {
                                    assert(reporters(front)[j] == d);
                                    assert(before.spawned.contains(d));
                                    let k = choose|k: int|
                                        0 <= k < before.spawned.len() && before.spawned[k] == d;
                                    assert(stops[earlier.len() + k] == d);
                                }
                            } else {
                                assert(step =~= seq![d]);
                                assert(stops[earlier.len() as int] == d);
                            }
                        }
                    }
                }
            }
        }
    }

    /// A start is all or nothing. When each targeted daemon has answered
    /// `Spawn` once, in whatever order: either all of them have spawned,
    /// the client has been told once, of the start, and no daemon has been
    /// told to stop; or the client has been told once, of the first
    /// failure, and exactly the daemons that have spawned have been told
    /// to stop.
    pub proof fn lemma_start_is_atomic(
        uuid: u128,
        name: Option<String>,
        client: u64,
        targets: Seq<Seq<char>>,
        reports: Seq<Report>,
    )
        requires
            targets.no_duplicates(),
            targets.len() > 0,
            reporters(reports).no_duplicates(),
            reporters(reports).to_set() == targets.to_set(),
        ensures
            ({
                let start = StartModel::fresh(uuid, name, client, targets);
                let end = start.after(reports);
                &&& end.settled()
                &&& all_ok(reports) ==> {
                    &&& !end.aborted
                    &&& end.spawned.to_set() == targets.to_set()
                    &&& start.replies_during(reports) == seq![
                        StartDataflowResult::Started { uuid },
                    ]
                    &&& start.stops_during(reports).len() == 0
                }
                &&& !all_ok(reports) ==> {
                    &&& end.aborted
                    &&& start.replies_during(reports) == seq![
                        StartDataflowResult::Error(first_failure(reports)),
                    ]
                    &&& start.stops_during(reports).to_set() == succeeded(reports)
                }
            }),
    {
        let start = StartModel::fresh(uuid, name, client, targets);
        assert forall|i: int| 0 <= i < reports.len() implies start.waiting.contains(
            #[trigger] reporters(reports)[i],
        ) by {
            assert(reporters(reports).to_set().contains(reporters(reports)[i]));
            assert(targets.to_set().contains(reporters(reports)[i]));
        }
        start.lemma_start_progress(reports);
        let end = start.after(reports);
        if end.waiting.len() > 0 {
            let d = end.waiting[0];
            assert(end.waiting.contains(d));
            assert(targets.to_set().contains(d));
            assert(reporters(reports).to_set().contains(d));
        }
        if reports.len() == 0 {
            assert(targets.to_set().contains(targets[0]));
            assert(reporters(reports).to_set().contains(targets[0]));
        }
        if all_ok(reports) {
            assert(end.spawned.to_set() =~= targets.to_set()) by {
                assert forall|d: Seq<char>| end.spawned.to_set().contains(d) <==> targets.to_set().contains(d) by {
                    assert(end.spawned.contains(d) <==> reporters(reports).contains(d));
                    assert(reporters(reports).to_set().contains(d) <==> reporters(reports).contains(d));
                }
            }
        }
    }
}

/// What one answer to `Spawn` sets in motion.
#[derive(Debug)]
pub struct StartStep {
    /// The daemons that are to be told to stop the dataflow.
    pub stop: Vec<String>,
    /// What the client is to be told, if anything yet.
    pub reply: Option<StartDataflowResult>,
    /// Every daemon has answered.
    pub settled: bool,
}

/// One start in progress: `Spawn` has gone out, and the answers come in.
pub struct StartTracker {
    uuid: u128,
    name: Option<String>,
    client: u64,
    waiting: Vec<String>,
    spawned: Vec<String>,
    aborted: bool,
}

impl View for StartTracker {
    type V = StartModel;

    closed spec fn view(&self) -> StartModel {
        StartModel {
            uuid: self.uuid,
            name: self.name,
            client: self.client,
            waiting: names(self.waiting@),
            spawned: names(self.spawned@),
            aborted: self.aborted,
        }
    }
}

impl StartTracker {
    /// The start as it stands when `Spawn` has gone out to `targets`.
    pub fn new(uuid: u128, name: Option<String>, client: u64, targets: Vec<String>) -> (start:
        StartTracker)
        ensures
            start@ == StartModel::fresh(uuid, name, client, names(targets@)),
    {
        let start = StartTracker {
            uuid,
            name,
            client,
            waiting: targets,
            spawned: Vec::new(),
            aborted: false,
        };
        assert(start@.spawned =~= Seq::empty());
        start
    }

    pub fn uuid(&self) -> (uuid: u128)
        ensures
            uuid == self@.uuid,
    {
        self.uuid
    }

    pub fn client(&self) -> (client: u64)
        ensures
            client == self@.client,
    {
        self.client
    }

    /// Hands out what the start leaves behind when every daemon has
    /// answered: the name that the dataflow was given, and the daemons
    /// that run it.
    pub fn finish(self) -> (left: (Option<String>, Vec<String>))
        ensures
            left.0 == self@.name,
            names(left.1@) == self@.spawned,
    {
        (self.name, self.spawned)
    }

    /// Whether some daemon has failed to spawn its nodes.
    pub fn aborted(&self) -> (off: bool)
        ensures
            off == self@.aborted,
    {
        self.aborted
    }

    /// Whether the start waits for an answer of the daemon.
    pub fn awaits(&self, daemon: &String) -> (waits: bool)
        ensures
            waits == self@.awaits(daemon@),
    {
        has_name(&self.waiting, daemon)
    }

    /// Takes in the answer of one daemon.
    pub fn record(&mut self, daemon: String, result: Result<(), String>) -> (step: StartStep)
        ensures
            final(self)@ == old(self)@.record(daemon@, result is Ok),
            names(step.stop@) == old(self)@.stops(daemon@, result is Ok),
            step.reply == old(self)@.reply(daemon@, result),
            step.settled == final(self)@.settled(),
    {
        if !has_name(&self.waiting, &daemon) {
            let step = StartStep { stop: Vec::new(), reply: None, settled: self.waiting.len() == 0 };
            assert(names(step.stop@) =~= Seq::empty());
            return step;
        }
        let mut waiting: Vec<String> = Vec::new();
        core::mem::swap(&mut self.waiting, &mut waiting);
        self.waiting = strike_name(waiting, &daemon);
        let settled = self.waiting.len() == 0;
        let was_aborted = self.aborted;
        let mut stop: Vec<String> = Vec::new();
        let reply = match result {
            Ok(_) => {
                if was_aborted {
                    stop.push(daemon);
                    assert(names(stop@) =~= seq![daemon@]);
                    None
                } else {
                    let ghost before = self.spawned@;
                    self.spawned.push(daemon);
                    assert(names(before.push(daemon)) =~= names(before).push(daemon@));
                    assert(names(stop@) =~= Seq::empty());
                    if settled {
                        Some(StartDataflowResult::Started { uuid: self.uuid })
                    } else {
                        None
                    }
                }
            },
            Err(description) => {
                core::mem::swap(&mut self.spawned, &mut stop);
                self.aborted = true;
                assert(names(self.spawned@) =~= Seq::empty());
                if was_aborted {
                    None
                } else {
                    Some(StartDataflowResult::Error(description))
                }
            },
        };
        StartStep { stop, reply, settled }
    }
}

/// The end of one dataflow as a mathematical value.
pub struct CompletionModel {
    pub uuid: u128,
    /// The daemons that have not reported that the dataflow is over.
    pub waiting: Seq<Seq<char>>,
    /// The description of the first failure that a daemon reported.
    pub failure: Option<String>,
}

impl CompletionModel {
    pub open spec fn fresh(uuid: u128, targets: Seq<Seq<char>>) -> CompletionModel {
        CompletionModel { uuid, waiting: targets, failure: None }
    }

    pub open spec fn awaits(self, daemon: Seq<char>) -> bool {
        self.waiting.contains(daemon)
    }

    pub open spec fn settled(self) -> bool {
        self.waiting.len() == 0
    }

    /// The first failure, this answer counted.
    pub open spec fn failure_with(self, result: Result<(), String>) -> Option<String> {
        match (self.failure, result) {
            (None, Err(description)) => Some(description),
            _ => self.failure,
        }
    }

    pub open spec fn record(self, daemon: Seq<char>, result: Result<(), String>) -> CompletionModel {
        if !self.awaits(daemon) {
            self
        } else {
            CompletionModel {
                waiting: strike(self.waiting, daemon),
                failure: if strike(self.waiting, daemon).len() == 0 {
                    None
                } else {
                    self.failure_with(result)
                },
                ..self
            }
        }
    }

    /// The one result that the client gets when the last daemon has
    /// answered: a success if every daemon reported one, else the first
    /// failure.
    pub open spec fn result(self, daemon: Seq<char>, result: Result<(), String>) -> Option<
        DataflowResult,
    > {
        if self.awaits(daemon) && strike(self.waiting, daemon).len() == 0 {
            Some(
                DataflowResult {
                    uuid: self.uuid,
                    outcome: match self.failure_with(result) {
                        None => Ok(()),
                        Some(description) => Err(description),
                    },
                },
            )
        } else {
            None
        }
    }

    /// Taking in a report keeps the list of awaited daemons free of
    /// repetitions.
    pub proof fn lemma_record_distinct(self, daemon: Seq<char>, result: Result<(), String>)
        requires
            self.waiting.no_duplicates(),
        ensures
            self.record(daemon, result).waiting.no_duplicates(),
            self.record(daemon, result).uuid == self.uuid,
    {
        lemma_strike_distinct(self.waiting, daemon);
    }

    pub open spec fn after(self, reports: Seq<Report>) -> CompletionModel
        decreases reports.len(),
    {
        if reports.len() == 0 {
            self
        } else {
            self.after(reports.drop_last()).record(reports.last().daemon, reports.last().result)
        }
    }

    /// What the client is told in the course of the reports.
    pub open spec fn results_during(self, reports: Seq<Report>) -> Seq<DataflowResult>
        decreases reports.len(),
    {
        if reports.len() == 0 {
            Seq::empty()
        } else {
            match self.after(reports.drop_last()).result(
                reports.last().daemon,
                reports.last().result,
            ) {
                Some(result) => self.results_during(reports.drop_last()).push(result),
                None => self.results_during(reports.drop_last()),
            }
        }
    }

    /// Where the stop stands after some of the daemons have answered, each
    /// once.
    pub proof fn lemma_completion_progress(self, reports: Seq<Report>)
        requires
            self.waiting.no_duplicates(),
            self.failure is None,
            reporters(reports).no_duplicates(),
            forall|i: int| 0 <= i < reports.len() ==> self.waiting.contains(#[trigger] reporters(reports)[i]),
        ensures
            ({
                let end = self.after(reports);
                &&& end.waiting.no_duplicates()
                &&& end.uuid == self.uuid
                &&& forall|d: Seq<char>|
                    #[trigger] end.waiting.contains(d) <==> self.waiting.contains(d) && !reporters(
                        reports,
                    ).contains(d)
                &&& !end.settled() ==> {
                    &&& end.failure == if all_ok(reports) {
                        None
                    } else {
                        Some(first_failure(reports))
                    }
                    &&& self.results_during(reports).len() == 0
                }
                &&& end.settled() && reports.len() > 0 ==> self.results_during(reports) == seq![
                    DataflowResult {
                        uuid: self.uuid,
                        outcome: if all_ok(reports) {
                            Ok(())
                        } else {
                            Err(first_failure(reports))
                        },
                    },
                ]
            }),
        decreases reports.len(),
    {
        if reports.len() > 0 {
            let front = reports.drop_last();
            let last = reports.last();
            assert(reporters(front) =~= reporters(reports).drop_last());
            assert forall|i: int| 0 <= i < front.len() implies self.waiting.contains(
                #[trigger] reporters(front)[i],
            ) by {
                assert(reporters(front)[i] == reporters(reports)[i]);
            }
            assert(reporters(front).no_duplicates()) by {
                assert forall|i: int, j: int|
                    0 <= i < front.len() && 0 <= j < front.len() && i != j implies reporters(
                    front,
                )[i] != reporters(front)[j] by {
                    assert(reporters(reports)[i] != reporters(reports)[j]);
                }
            }
            self.lemma_completion_progress(front);
            let before = self.after(front);
            let end = before.record(last.daemon, last.result);
            assert(reporters(reports)[reports.len() - 1] == last.daemon);
            assert(!reporters(front).contains(last.daemon)) by {
                if reporters(front).contains(last.daemon) {
                    let k = choose|k: int| 0 <= k < front.len() && reporters(front)[k] == last.daemon;
                    assert(reporters(reports)[k] == reporters(reports)[reports.len() - 1]);
                }
            }
            assert(before.awaits(last.daemon));
            lemma_strike_contains(before.waiting, last.daemon);
            lemma_strike_distinct(before.waiting, last.daemon);
            assert forall|d: Seq<char>| #[trigger]
                end.waiting.contains(d) <==> self.waiting.contains(d) && !reporters(
                    reports,
                ).contains(d) by {
                if reporters(reports).contains(d) && d != last.daemon {
                    let k = choose|k: int| 0 <= k < reports.len() && reporters(reports)[k] == d;
                    assert(reporters(front)[k] == d);
                }
                if reporters(front).contains(d) {
                    let k = choose|k: int| 0 <= k < front.len() && reporters(front)[k] == d;
                    assert(reporters(reports)[k] == d);
                }
                if d != last.daemon {
                    assert(end.waiting.contains(d) <==> before.waiting.contains(d));
                }
            }
            assert(all_ok(reports) <==> all_ok(front) && last.result is Ok) by {
                if all_ok(front) && last.result is Ok {
                    assert forall|i: int| 0 <= i < reports.len() implies (
                    #[trigger] reports[i]).result is Ok by {
                        if i < front.len() {
                            assert(front[i].result is Ok);
                        }
                    }
                }
                if all_ok(reports) {
                    assert(reports[reports.len() - 1].result is Ok);
                    assert forall|i: int| 0 <= i < front.len() implies (
                    #[trigger] front[i]).result is Ok by {
                        assert(reports[i].result is Ok);
                    }
                }
            }
            if before.settled() {
                assert(before.waiting.contains(last.daemon));
            }
        }
    }

    /// A dataflow ends well only if it does so on every daemon. When each
    /// daemon of the dataflow has reported once, in whatever order, there
    /// is one result: a success if every daemon reported one, else the
    /// first failure.
    pub proof fn lemma_result_is_aggregated(uuid: u128, targets: Seq<Seq<char>>, reports: Seq<Report>)
        requires
            targets.no_duplicates(),
            targets.len() > 0,
            reporters(reports).no_duplicates(),
            reporters(reports).to_set() == targets.to_set(),
        ensures
            ({
                let stop = CompletionModel::fresh(uuid, targets);
                &&& stop.after(reports).settled()
                &&& stop.results_during(reports) == seq![
                    DataflowResult {
                        uuid,
                        outcome: if all_ok(reports) {
                            Ok(())
                        } else {
                            Err(first_failure(reports))
                        },
                    },
                ]
            }),
    {
        let stop = CompletionModel::fresh(uuid, targets);
        assert forall|i: int| 0 <= i < reports.len() implies stop.waiting.contains(
            #[trigger] reporters(reports)[i],
        ) by {
            assert(reporters(reports).to_set().contains(reporters(reports)[i]));
            assert(targets.to_set().contains(reporters(reports)[i]));
        }
        stop.lemma_completion_progress(reports);
        let end = stop.after(reports);
        if end.waiting.len() > 0 {
            let d = end.waiting[0];
            assert(end.waiting.contains(d));
            assert(targets.to_set().contains(d));
            assert(reporters(reports).to_set().contains(d));
        }
        if reports.len() == 0 {
            assert(targets.to_set().contains(targets[0]));
            assert(reporters(reports).to_set().contains(targets[0]));
        }
    }
}

/// Gathers the reports of the daemons that run one dataflow into the one
/// result of the dataflow.
pub struct CompletionTracker {
    uuid: u128,
    waiting: Vec<String>,
    failure: Option<String>,
}

impl View for CompletionTracker {
    type V = CompletionModel;

    closed spec fn view(&self) -> CompletionModel {
        CompletionModel { uuid: self.uuid, waiting: names(self.waiting@), failure: self.failure }
    }
}

impl CompletionTracker {
    /// The tracker of a dataflow that has just started on `targets`.
    pub fn new(uuid: u128, targets: Vec<String>) -> (tracker: CompletionTracker)
        ensures
            tracker@ == CompletionModel::fresh(uuid, names(targets@)),
    {
        CompletionTracker { uuid, waiting: targets, failure: None }
    }

    pub fn uuid(&self) -> (uuid: u128)
        ensures
            uuid == self@.uuid,
    {
        self.uuid
    }

    /// The daemons that have yet to report.
    pub fn waiting(&self) -> (list: Vec<String>)
        ensures
            names(list@) == self@.waiting,
    {
        let mut out: Vec<String> = Vec::new();
        let mut i: usize = 0;
        while i < self.waiting.len()
            invariant
                i <= self.waiting.len(),
                out@ == self.waiting@.subrange(0, i as int),
            decreases self.waiting.len() - i,
        {
            out.push(self.waiting[i].clone());
            assert(self.waiting@.subrange(0, i + 1) =~= self.waiting@.subrange(0, i as int).push(
                self.waiting[i as int],
            ));
            i += 1;
        }
        assert(self.waiting@.subrange(0, self.waiting.len() as int) =~= self.waiting@);
        out
    }

    /// Whether the daemon has yet to report.
    pub fn awaits(&self, daemon: &String) -> (waits: bool)
        ensures
            waits == self@.awaits(daemon@),
    {
        has_name(&self.waiting, daemon)
    }

    /// Takes in the report of one daemon, and hands out the result of the
    /// dataflow when it was the last.
    pub fn record(&mut self, daemon: &String, result: Result<(), String>) -> (outcome: Option<
        DataflowResult,
    >)
        ensures
            final(self)@ == old(self)@.record(daemon@, result),
            outcome == old(self)@.result(daemon@, result),
    {
        if !has_name(&self.waiting, daemon) {
            return None;
        }
        let mut waiting: Vec<String> = Vec::new();
        core::mem::swap(&mut self.waiting, &mut waiting);
        self.waiting = strike_name(waiting, daemon);
        if self.failure.is_none() {
            if let Err(description) = result {
                self.failure = Some(description);
            }
        }
        if self.waiting.len() == 0 {
            let outcome = match self.failure.take() {
                None => Ok(()),
                Some(description) => Err(description),
            };
            Some(DataflowResult { uuid: self.uuid, outcome })
        } else {
            None
        }
    }
}

} // verus!

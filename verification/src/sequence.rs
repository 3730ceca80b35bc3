//! The sequence detector: it takes the ports that clients probe, keeps each
//! client's progress, and decides when a knock is complete.
//!
//! Of the rules that an observed sequence completes, the one declared first
//! fires, and only that one. Firing clears the client's sequence, so a port
//! that completed one rule never counts towards another.

use crate::clock::current_time;
use crate::command::{dispatch, dispatch_for, dispatch_views, Dispatch, DispatchView};
use crate::config::{is_relevant, relevant_ports, rule_views, Config, ConfigView, Rule, RuleView};
use crate::matching::{find_match, first_match};
use crate::store::{
    clear_spec, is_live, purge_spec, record_spec, stale_clients, ClientMap, ClientStateStore,
};
use std::collections::HashSet;
use vstd::prelude::*;

verus! {

/// Mathematical value of a detector: its immutable rule set, the state of
/// every tracked client, and the commands that are due and not yet taken.
pub struct DetectorView {
    pub timeout: u64,
    pub rules: Seq<RuleView>,
    pub clients: ClientMap,
    pub pending: Seq<DispatchView>,
}

/// A detector fresh from `config`: no client is tracked, nothing is due.
pub open spec fn initial(config: ConfigView) -> DetectorView {
    DetectorView {
        timeout: config.timeout,
        rules: config.rules,
        clients: Map::empty(),
        pending: Seq::empty(),
    }
}

/// The ports on record for `client`, none for an unknown client.
pub open spec fn recorded_ports(clients: ClientMap, client: Seq<char>) -> Seq<i32> {
    if clients.dom().contains(client) {
        clients[client].observed
    } else {
        Seq::empty()
    }
}

/// The rule that fires for `client` at `now`: the first rule in declaration
/// order that the client's sequence completes. A client that is unknown, or
/// whose entry is dead at `now`, completes nothing.
pub open spec fn firing_rule(v: DetectorView, client: Seq<char>, now: u64) -> Option<int> {
    if is_live(v.clients, client, now, v.timeout) {
        first_match(v.rules, v.clients[client].observed)
    } else {
        None
    }
}

/// The detector after rule number `r` fired for `client`: the client's
/// sequence is empty, and the rule's command for that client is due.
pub open spec fn fire_step(v: DetectorView, client: Seq<char>, r: int) -> DetectorView {
    DetectorView {
        clients: clear_spec(v.clients, client),
        pending: v.pending.push(dispatch_for(v.rules[r], client)),
        ..v
    }
}

/// The detector after the rules were tried against `client`'s sequence at
/// `now`.
pub open spec fn evaluate_step(v: DetectorView, client: Seq<char>, now: u64) -> DetectorView {
    match firing_rule(v, client, now) {
        Some(r) => fire_step(v, client, r),
        None => v,
    }
}

/// The detector with `port` put on `client`'s record at `now`, no rule tried
/// yet.
pub open spec fn recorded(
    v: DetectorView,
    client: Seq<char>,
    port: i32,
    now: u64,
) -> DetectorView {
    DetectorView { clients: record_spec(v.clients, client, port, now, v.timeout), ..v }
}

/// The detector after `client` was seen probing `port` at `now`. A port that
/// no rule names changes nothing; any other port is recorded and the rules
/// are tried.
pub open spec fn observe_step(
    v: DetectorView,
    client: Seq<char>,
    port: i32,
    now: u64,
) -> DetectorView {
    if is_relevant(v.rules, port) {
        evaluate_step(recorded(v, client, port, now), client, now)
    } else {
        v
    }
}

/// The rule that a probe of `port` by `client` at `now` sets off, if any.
pub open spec fn fired_rule(v: DetectorView, client: Seq<char>, port: i32, now: u64) -> Option<
    int,
> {
    if is_relevant(v.rules, port) {
        firing_rule(recorded(v, client, port, now), client, now)
    } else {
        None
    }
}

/// The detector after a sweep at `now`: the dead entries are gone.
pub open spec fn sweep_step(v: DetectorView, now: u64) -> DetectorView {
    DetectorView { clients: purge_spec(v.clients, now, v.timeout), ..v }
}

/// What a sequence detector offers to the capture path and to the ticker.
///
/// The first four functions say what can be seen of any detector. The next
/// four say, for each operation, which states it may lead to; a detector
/// defines them, and the operations promise to stay within them.
pub trait SequenceDetector {
    /// The invariant of the detector's state.
    spec fn well_formed(&self) -> bool;

    /// Some rule names `port`.
    spec fn listens_for(&self, port: i32) -> bool;

    /// The ports on record for `client`, none for an unknown client.
    spec fn progress(&self, client: Seq<char>) -> Seq<i32>;

    /// How many commands are due and not yet taken.
    spec fn backlog(&self) -> nat;

    /// `next` is a state that a probe of `port` by `client` may lead to.
    spec fn after_probe(&self, client: Seq<char>, port: i32, next: &Self) -> bool;

    /// `next` is a state that trying the rules for `client` may lead to, with
    /// `matched` as the answer.
    spec fn after_match(&self, client: Seq<char>, matched: bool, next: &Self) -> bool;

    /// `next` is a state that one tick of the expirer may lead to, with
    /// `removed` clients dropped.
    spec fn after_tick(&self, removed: usize, next: &Self) -> bool;

    /// `next` is the state after `due` was handed over.
    spec fn after_take(&self, due: Seq<DispatchView>, next: &Self) -> bool;

    /// Takes note that `client_ip` probed port `sequence`, and lets a rule
    /// fire if that completes a knock.
    fn add_sequence(&mut self, client_ip: String, sequence: i32)
        requires
            old(self).well_formed(),
        ensures
            final(self).well_formed(),
            old(self).after_probe(client_ip@, sequence, final(self)),
            forall|c: Seq<char>|
                c != client_ip@ ==> #[trigger] final(self).progress(c) == old(self).progress(c),
            !old(self).listens_for(sequence) ==> final(self).progress(client_ip@) == old(
                self
            ).progress(client_ip@) && final(self).backlog() == old(self).backlog(),
            forall|p: i32| #[trigger] final(self).listens_for(p) == old(self).listens_for(p),
    ;

    /// Tries the rules against what `client_ip` has on record.
    fn match_sequence(&mut self, client_ip: &str) -> (matched: bool)
        requires
            old(self).well_formed(),
        ensures
            final(self).well_formed(),
            old(self).after_match(client_ip@, matched, final(self)),
            forall|c: Seq<char>|
                c != client_ip@ ==> #[trigger] final(self).progress(c) == old(self).progress(c),
            matched ==> final(self).progress(client_ip@) == Seq::<i32>::empty()
                && final(self).backlog() == old(self).backlog() + 1,
            !matched ==> final(self).progress(client_ip@) == old(self).progress(client_ip@)
                && final(self).backlog() == old(self).backlog(),
            forall|p: i32| #[trigger] final(self).listens_for(p) == old(self).listens_for(p),
    ;

    /// One tick of the expirer: drops the clients that were silent for too
    /// long and returns how many were dropped.
    fn expire(&mut self) -> (removed: usize)
        requires
            old(self).well_formed(),
        ensures
            final(self).well_formed(),
            old(self).after_tick(removed, final(self)),
            final(self).backlog() == old(self).backlog(),
            forall|c: Seq<char>| #[trigger]
                final(self).progress(c) == old(self).progress(c) || final(self).progress(c)
                    == Seq::<i32>::empty(),
            forall|p: i32| #[trigger] final(self).listens_for(p) == old(self).listens_for(p),
    ;

    /// Hands over the commands that are due, oldest first, and forgets them.
    fn take_dispatches(&mut self) -> (due: Vec<Dispatch>)
        requires
            old(self).well_formed(),
        ensures
            final(self).well_formed(),
            old(self).after_take(dispatch_views(due@), final(self)),
            due.len() == old(self).backlog(),
            final(self).backlog() == 0,
            forall|c: Seq<char>| #[trigger] final(self).progress(c) == old(self).progress(c),
            forall|p: i32| #[trigger] final(self).listens_for(p) == old(self).listens_for(p),
    ;
}

/// What `add_sequence` promises of any detector: the state stays valid and
/// within what the detector allows; only the probing client's progress can
/// change, and not even that for a port that no rule names.
pub open spec fn probed<D: SequenceDetector + ?Sized>(
    before: &D,
    client: Seq<char>,
    port: i32,
    after: &D,
) -> bool {
    &&& after.well_formed()
    &&& before.after_probe(client, port, after)
    &&& forall|c: Seq<char>| c != client ==> #[trigger] after.progress(c) == before.progress(c)
    &&& !before.listens_for(port) ==> after.progress(client) == before.progress(client)
        && after.backlog() == before.backlog()
    &&& forall|p: i32| #[trigger] after.listens_for(p) == before.listens_for(p)
}

/// What `expire` promises of any detector: a client's record is kept as it
/// is or dropped; nothing becomes due.
pub open spec fn ticked<D: SequenceDetector + ?Sized>(
    before: &D,
    removed: usize,
    after: &D,
) -> bool {
    &&& after.well_formed()
    &&& before.after_tick(removed, after)
    &&& after.backlog() == before.backlog()
    &&& forall|c: Seq<char>| #[trigger]
        after.progress(c) == before.progress(c) || after.progress(c) == Seq::<i32>::empty()
    &&& forall|p: i32| #[trigger] after.listens_for(p) == before.listens_for(p)
}

/// What `take_dispatches` promises of any detector: all that is due leaves,
/// and nothing else changes.
pub open spec fn taken<D: SequenceDetector + ?Sized>(
    before: &D,
    due: Seq<DispatchView>,
    after: &D,
) -> bool {
    &&& after.well_formed()
    &&& before.after_take(due, after)
    &&& due.len() == before.backlog()
    &&& after.backlog() == 0
    &&& forall|c: Seq<char>| #[trigger] after.progress(c) == before.progress(c)
    &&& forall|p: i32| #[trigger] after.listens_for(p) == before.listens_for(p)
}

/// The ports of the rules before rule `i`, and of the first `j` places of
/// rule `i`.
spec fn ports_until(rules: Seq<RuleView>, i: int, j: int) -> Set<i32> {
    Set::new(
        |p: i32|
            exists|a: int, b: int|
                0 <= a < rules.len() && 0 <= b < rules[a].sequence.len() && (a < i || (a == i && b
                    < j)) && #[trigger] rules[a].sequence[b] == p,
    )
}

/// A detector that matches the tail of each client's probes against the
/// configured knock sequences.
#[derive(Debug)]
pub struct PortSequenceDetector {
    timeout: u64,
    sequence_set: HashSet<i32>,
    rules: Vec<Rule>,
    clients: ClientStateStore,
    pending: Vec<Dispatch>,
}

impl View for PortSequenceDetector {
    type V = DetectorView;

    closed spec fn view(&self) -> DetectorView {
        DetectorView {
            timeout: self.timeout,
            rules: rule_views(self.rules@),
            clients: self.clients@,
            pending: dispatch_views(self.pending@),
        }
    }
}

impl PortSequenceDetector {
    /// The store holds no client twice, and the port set holds exactly the
    /// ports that the rules name.
    pub closed spec fn wf(&self) -> bool {
        self.clients.wf() && self.sequence_set@ == relevant_ports(rule_views(self.rules@))
    }

    /// Builds the detector for `config`.
    #[must_use]
    pub fn new(config: Config) -> (detector: PortSequenceDetector)
        ensures
            detector.wf(),
            detector@ == initial(config@),
    {
        let ghost views = config@.rules;
        let timeout: u64 = config.timeout;
        let rules: Vec<Rule> = config.rules;
        let mut sequence_set: HashSet<i32> = HashSet::new();
        let mut i: usize = 0;
        proof {
            assert(sequence_set@ =~= ports_until(views, 0, 0));
        }
        while i < rules.len()
            invariant
                i <= rules.len(),
                views == rule_views(rules@),
                sequence_set@ == ports_until(views, i as int, 0),
            decreases rules.len() - i,
        {
            let mut j: usize = 0;
            while j < rules[i].sequence.len()
                invariant
                    i < rules.len(),
                    j <= rules[i as int].sequence.len(),
                    views == rule_views(rules@),
                    sequence_set@ == ports_until(views, i as int, j as int),
                decreases rules[i as int].sequence.len() - j,
            {
                let port: i32 = rules[i].sequence[j];
                sequence_set.insert(port);
                proof {
                    assert(views[i as int].sequence[j as int] == port);
                    assert(ports_until(views, i as int, j as int).insert(port) =~= ports_until(
                        views,
                        i as int,
                        j + 1,
                    ));
                }
                j += 1;
            }
            proof {
                assert(views[i as int].sequence.len() == j);
                assert(ports_until(views, i as int, j as int) =~= ports_until(views, i + 1, 0));
            }
            i += 1;
        }
        proof {
            assert(ports_until(views, i as int, 0) =~= relevant_ports(views));
        }
        let detector = PortSequenceDetector {
            timeout,
            sequence_set,
            rules,
            clients: ClientStateStore::new(),
            pending: Vec::new(),
        };
        proof {
            assert(detector@.pending =~= Seq::<DispatchView>::empty());
        }
        detector
    }

    /// The inactivity timeout in seconds.
    pub fn timeout(&self) -> (seconds: u64)
        ensures
            seconds == self@.timeout,
    {
        self.timeout
    }

    /// The number of rules.
    pub fn rule_count(&self) -> (count: usize)
        ensures
            count == self@.rules.len(),
    {
        self.rules.len()
    }

    /// The number of distinct ports that the rules name.
    pub fn port_count(&self) -> (count: usize)
        requires
            self.wf(),
        ensures
            count == relevant_ports(self@.rules).len(),
    {
        broadcast use vstd::std_specs::hash::group_hash_axioms;

        self.sequence_set.len()
    }

    /// Whether some rule names `port`.
    pub fn listens_on(&self, port: i32) -> (relevant: bool)
        requires
            self.wf(),
        ensures
            relevant == is_relevant(self@.rules, port),
    {
        broadcast use vstd::std_specs::hash::group_hash_axioms;

        self.sequence_set.contains(&port)
    }

    /// The number of clients tracked.
    pub fn client_count(&self) -> (count: usize)
        requires
            self.wf(),
        ensures
            self@.clients.dom().finite(),
            count == self@.clients.dom().len(),
    {
        self.clients.len()
    }

    /// The number of commands that are due and not yet taken.
    pub fn pending_count(&self) -> (count: usize)
        ensures
            count == self@.pending.len(),
    {
        self.pending.len()
    }

    /// A copy of the ports on record for `client_address`, if it is tracked.
    pub fn observed(&self, client_address: &str) -> (ports: Option<Vec<i32>>)
        requires
            self.wf(),
        ensures
            match ports {
                Some(v) => self@.clients.dom().contains(client_address@) && v@
                    == self@.clients[client_address@].observed,
                None => !self@.clients.dom().contains(client_address@),
            },
    {
        self.clients.observed(client_address)
    }

    /// When `client_address` was last seen, if it is tracked.
    pub fn last_observed_at(&self, client_address: &str) -> (seen: Option<u64>)
        requires
            self.wf(),
        ensures
            match seen {
                Some(t) => self@.clients.dom().contains(client_address@) && t
                    == self@.clients[client_address@].last_observed_at,
                None => !self@.clients.dom().contains(client_address@),
            },
    {
        self.clients.last_observed_at(client_address)
    }

    fn fire(&mut self, client_address: &str, observed: &Vec<i32>) -> (fired: bool)
        requires
            old(self).wf(),
            old(self)@.clients.dom().contains(client_address@),
            observed@ == old(self)@.clients[client_address@].observed,
        ensures
            final(self).wf(),
            match first_match(old(self)@.rules, observed@) {
                Some(r) => fired && final(self)@ == fire_step(old(self)@, client_address@, r),
                None => !fired && final(self)@ == old(self)@,
            },
    {
        match find_match(&self.rules, observed.as_slice()) {
            Some(r) => {
                let due = dispatch(&self.rules[r], client_address);
                self.clients.clear(client_address);
                self.pending.push(due);
                proof {
                    assert(old(self)@.rules[r as int] == self.rules[r as int]@);
                    assert(dispatch_views(self.pending@) =~= dispatch_views(
                        old(self).pending@,
                    ).push(due@));
                }
                true
            },
            None => false,
        }
    }

    /// Takes note that `client_address` probed `port` at time `now`. A port
    /// that no rule names is dropped at once. Any other port goes on the
    /// client's record, and if that completes a rule, the rule fires: the
    /// record is cleared and the rule's command becomes due. Returns whether
    /// a rule fired.
    pub fn observe(&mut self, client_address: &str, port: i32, now: u64) -> (fired: bool)
        requires
            old(self).wf(),
        ensures
            final(self).wf(),
            final(self)@ == observe_step(old(self)@, client_address@, port, now),
            fired == fired_rule(old(self)@, client_address@, port, now).is_some(),
    {
        if !self.listens_on(port) {
            return false;
        }
        let observed = self.clients.record(client_address, port, now, self.timeout);
        self.fire(client_address, &observed)
    }

    /// Tries the rules against what `client_address` has on record at time
    /// `now`. A dead or missing entry completes nothing. Returns whether a
    /// rule fired.
    pub fn evaluate(&mut self, client_address: &str, now: u64) -> (fired: bool)
        requires
            old(self).wf(),
        ensures
            final(self).wf(),
            final(self)@ == evaluate_step(old(self)@, client_address@, now),
            fired == firing_rule(old(self)@, client_address@, now).is_some(),
    {
        match self.clients.live_sequence(client_address, now, self.timeout) {
            Some(observed) => self.fire(client_address, &observed),
            None => false,
        }
    }

    /// Removes every client whose entry is dead at `now` and returns how
    /// many were removed.
    pub fn sweep(&mut self, now: u64) -> (removed: usize)
        requires
            old(self).wf(),
        ensures
            final(self).wf(),
            final(self)@ == sweep_step(old(self)@, now),
            removed == stale_clients(old(self)@.clients, now, old(self)@.timeout).len(),
    {
        self.clients.purge_stale(now, self.timeout)
    }

    /// Hands over the commands that are due, oldest first, and forgets them.
    pub fn drain(&mut self) -> (due: Vec<Dispatch>)
        requires
            old(self).wf(),
        ensures
            final(self).wf(),
            dispatch_views(due@) == old(self)@.pending,
            final(self)@ == (DetectorView { pending: Seq::empty(), ..old(self)@ }),
    {
        let mut due: Vec<Dispatch> = Vec::new();
        core::mem::swap(&mut due, &mut self.pending);
        proof {
            assert(dispatch_views(self.pending@) =~= Seq::<DispatchView>::empty());
        }
        due
    }
}

impl SequenceDetector for PortSequenceDetector {
    open spec fn well_formed(&self) -> bool {
        self.wf()
    }

    open spec fn listens_for(&self, port: i32) -> bool {
        is_relevant(self@.rules, port)
    }

    open spec fn progress(&self, client: Seq<char>) -> Seq<i32> {
        recorded_ports(self@.clients, client)
    }

    open spec fn backlog(&self) -> nat {
        self@.pending.len()
    }

    /// The probe was observed at some reading of the clock.
    open spec fn after_probe(&self, client: Seq<char>, port: i32, next: &Self) -> bool {
        exists|now: u64| next@ == observe_step(self@, client, port, now)
    }

    /// The rules were tried at some reading of the clock.
    open spec fn after_match(&self, client: Seq<char>, matched: bool, next: &Self) -> bool {
        exists|now: u64|
            next@ == evaluate_step(self@, client, now) && matched == firing_rule(
                self@,
                client,
                now,
            ).is_some()
    }

    /// The sweep ran at some reading of the clock.
    open spec fn after_tick(&self, removed: usize, next: &Self) -> bool {
        exists|now: u64|
            next@ == sweep_step(self@, now) && removed == stale_clients(
                self@.clients,
                now,
                self@.timeout,
            ).len()
    }

    open spec fn after_take(&self, due: Seq<DispatchView>, next: &Self) -> bool {
        due == self@.pending && next@ == (DetectorView { pending: Seq::empty(), ..self@ })
    }

    /// Reads the clock and observes the probe at that time.
    fn add_sequence(&mut self, client_ip: String, sequence: i32) {
        let now = current_time();
        self.observe(client_ip.as_str(), sequence, now);
    }

    /// Reads the clock and tries the rules at that time.
    fn match_sequence(&mut self, client_ip: &str) -> (matched: bool) {
        let now = current_time();
        self.evaluate(client_ip, now)
    }

    /// Reads the clock and sweeps at that time.
    fn expire(&mut self) -> (removed: usize) {
        let now = current_time();
        self.sweep(now)
    }

    fn take_dispatches(&mut self) -> (due: Vec<Dispatch>) {
        self.drain()
    }
}

} // verus!

//! What holds of the detector over whole runs: a knock that is performed
//! exactly fires exactly once, clients do not disturb one another, dead
//! entries never count, and nothing but rule ports is ever kept.

use crate::command::{dispatch_for, DispatchView};
use crate::config::{is_relevant, RuleView};
use crate::matching::{
    is_first_match, lemma_first_match_is, lemma_first_match_none, lemma_first_match_sound,
    matches_at,
};
use crate::sequence::{
    evaluate_step, fire_step, fired_rule, firing_rule, observe_step, recorded, recorded_ports,
    sweep_step, DetectorView,
};
use crate::store::{is_stale, live_observed, ClientMap, ClientView};
use vstd::prelude::*;

verus! {

/// The detector after `client` probed `ports[0]` at `times[0]`, then
/// `ports[1]` at `times[1]`, and so on.
pub open spec fn observe_all(
    v: DetectorView,
    client: Seq<char>,
    ports: Seq<i32>,
    times: Seq<u64>,
) -> DetectorView
    decreases ports.len(),
{
    if ports.len() == 0 {
        v
    } else {
        observe_step(
            observe_all(v, client, ports.drop_last(), times),
            client,
            ports.last(),
            times[ports.len() - 1],
        )
    }
}

/// No two consecutive probes are further apart than the timeout allows.
pub open spec fn in_time(times: Seq<u64>, timeout: u64) -> bool {
    forall|k: int| 1 <= k < times.len() ==> !is_stale(times[k - 1], #[trigger] times[k], timeout)
}

/// Every port of a rule's sequence is a port that the detector listens for.
pub proof fn lemma_rule_ports_relevant(rules: Seq<RuleView>, r: int, k: int)
    requires
        0 <= r < rules.len(),
        0 <= k < rules[r].sequence.len(),
    ensures
        is_relevant(rules, rules[r].sequence[k]),
{
}

proof fn lemma_knock_in_progress(
    v: DetectorView,
    client: Seq<char>,
    r: int,
    times: Seq<u64>,
    k: int,
)
    requires
        0 <= r < v.rules.len(),
        times.len() == v.rules[r].sequence.len(),
        in_time(times, v.timeout),
        1 <= k < times.len(),
        forall|m: int, j: int|
            1 <= m < times.len() ==> !#[trigger] matches_at(
                v.rules,
                live_observed(v.clients, client, times[0], v.timeout) + v.rules[r].sequence.take(m),
                j,
            ),
    ensures
        observe_all(v, client, v.rules[r].sequence.take(k), times) == (DetectorView {
            clients: v.clients.insert(
                client,
                ClientView {
                    observed: live_observed(v.clients, client, times[0], v.timeout)
                        + v.rules[r].sequence.take(k),
                    last_observed_at: times[k - 1],
                },
            ),
            ..v
        }),
    decreases k,
{
    let knock = v.rules[r].sequence;
    let prior = live_observed(v.clients, client, times[0], v.timeout);
    let ports = knock.take(k);
    let before = observe_all(v, client, ports.drop_last(), times);
    let port = knock[k - 1];
    let now = times[k - 1];
    assert(ports.last() == port);
    assert(ports.drop_last() =~= knock.take(k - 1));
    lemma_rule_ports_relevant(v.rules, r, k - 1);
    if k == 1 {
        assert(knock.take(0) =~= Seq::<i32>::empty());
        assert(before == v);
        assert(prior.push(port) =~= prior + knock.take(1));
    } else {
        lemma_knock_in_progress(v, client, r, times, k - 1);
        assert(!is_stale(times[k - 2], times[k - 1], v.timeout));
        assert((prior + knock.take(k - 1)).push(port) =~= prior + knock.take(k));
        let entry = ClientView { observed: prior + ports, last_observed_at: now };
        assert(before.clients.insert(client, entry) =~= v.clients.insert(client, entry));
    }
    let noted = recorded(before, client, port, now);
    assert(noted.clients[client].observed == prior + ports);
    assert forall|j: int| !#[trigger] matches_at(v.rules, prior + ports, j) by {
        assert(!matches_at(v.rules, prior + knock.take(k), j));
    }
    lemma_first_match_none(v.rules, prior + ports);
    assert(firing_rule(noted, client, now).is_none());
}

/// The exact knock fires exactly once.
///
/// Take a rule with a non-empty sequence and a client that probes exactly
/// the ports of that sequence, in order, with no pause longer than the
/// timeout. Let `prior` be what the client had on record that still counted
/// at the first probe (nothing, for a new client). If no rule is completed
/// by `prior` followed by a proper, non-empty prefix of the sequence, and
/// the rule is the first in declaration order that `prior` followed by the
/// whole sequence completes, then after the last probe exactly one more
/// command is due, it is this rule's command for this client, the client's
/// record is empty and stamped with the time of the last probe, and no other
/// client's state has changed.
pub proof fn lemma_exact_knock_fires_once(
    v: DetectorView,
    client: Seq<char>,
    r: int,
    times: Seq<u64>,
)
    requires
        0 <= r < v.rules.len(),
        v.rules[r].sequence.len() > 0,
        times.len() == v.rules[r].sequence.len(),
        in_time(times, v.timeout),
        forall|m: int, j: int|
            1 <= m < times.len() ==> !#[trigger] matches_at(
                v.rules,
                live_observed(v.clients, client, times[0], v.timeout) + v.rules[r].sequence.take(m),
                j,
            ),
        is_first_match(
            v.rules,
            live_observed(v.clients, client, times[0], v.timeout) + v.rules[r].sequence,
            r,
        ),
    ensures
        observe_all(v, client, v.rules[r].sequence, times) == (DetectorView {
            clients: v.clients.insert(
                client,
                ClientView { observed: Seq::empty(), last_observed_at: times.last() },
            ),
            pending: v.pending.push(dispatch_for(v.rules[r], client)),
            ..v
        }),
{
    let knock = v.rules[r].sequence;
    let n = knock.len() as int;
    let prior = live_observed(v.clients, client, times[0], v.timeout);
    let before = observe_all(v, client, knock.drop_last(), times);
    let port = knock[n - 1];
    let now = times[n - 1];
    lemma_rule_ports_relevant(v.rules, r, n - 1);
    assert(knock.drop_last() =~= knock.take(n - 1));
    assert(knock.take(n) =~= knock);
    if n == 1 {
        assert(knock.take(0) =~= Seq::<i32>::empty());
        assert(before == v);
        assert(prior.push(port) =~= prior + knock);
    } else {
        lemma_knock_in_progress(v, client, r, times, n - 1);
        assert(!is_stale(times[n - 2], times[n - 1], v.timeout));
        assert((prior + knock.take(n - 1)).push(port) =~= prior + knock);
    }
    let noted = recorded(before, client, port, now);
    assert(noted.clients[client].observed == prior + knock);
    lemma_first_match_is(v.rules, prior + knock, r);
    assert(firing_rule(noted, client, now) == Some(r));
    let after = fire_step(noted, client, r);
    assert(after.clients =~= v.clients.insert(
        client,
        ClientView { observed: Seq::empty(), last_observed_at: now },
    ));
}

/// A record grows by at most one port per probe, and probes change neither
/// the rules nor the timeout.
pub proof fn lemma_record_grows_by_probes(
    v: DetectorView,
    client: Seq<char>,
    ports: Seq<i32>,
    times: Seq<u64>,
)
    ensures
        observe_all(v, client, ports, times).rules == v.rules,
        observe_all(v, client, ports, times).timeout == v.timeout,
        recorded_ports(observe_all(v, client, ports, times).clients, client).len()
            <= recorded_ports(v.clients, client).len() + ports.len(),
    decreases ports.len(),
{
    if ports.len() > 0 {
        lemma_record_grows_by_probes(v, client, ports.drop_last(), times);
    }
}

/// Ports that completed a knock are used up.
///
/// Once a client's record is empty, as it is after a match, a rule cannot
/// fire for that client before the client has probed as many ports again as
/// the rule's sequence is long: whatever the fewer ports are and whenever
/// they come, none of these probes sets the rule off. So a port shared by
/// the end of one rule and the start of another serves the first only.
pub proof fn lemma_consumed_ports_do_not_count(
    v: DetectorView,
    client: Seq<char>,
    ports: Seq<i32>,
    times: Seq<u64>,
    r: int,
    k: int,
)
    requires
        0 <= r < v.rules.len(),
        recorded_ports(v.clients, client).len() == 0,
        0 <= k < ports.len() < v.rules[r].sequence.len(),
    ensures
        fired_rule(observe_all(v, client, ports.take(k), times), client, ports[k], times[k])
            != Some(r),
{
    let before = observe_all(v, client, ports.take(k), times);
    lemma_record_grows_by_probes(v, client, ports.take(k), times);
    if is_relevant(before.rules, ports[k]) {
        let noted = recorded(before, client, ports[k], times[k]);
        let record = noted.clients[client].observed;
        assert(record.len() <= k + 1);
        lemma_first_match_sound(v.rules, record);
        if firing_rule(noted, client, times[k]) == Some(r) {
            assert(matches_at(v.rules, record, r));
        }
    }
}

/// A port that no rule names leaves the detector as it was: nothing is
/// recorded, no timestamp moves, nothing becomes due.
pub proof fn lemma_irrelevant_port_ignored(
    v: DetectorView,
    client: Seq<char>,
    port: i32,
    now: u64,
)
    requires
        !is_relevant(v.rules, port),
    ensures
        observe_step(v, client, port, now) == v,
{
}

/// One observation makes at most one command due, and it makes one due
/// exactly when a rule fires; the client's record is then empty.
pub proof fn lemma_one_dispatch_per_match(v: DetectorView, client: Seq<char>, port: i32, now: u64)
    requires
        is_relevant(v.rules, port),
    ensures
        match firing_rule(recorded(v, client, port, now), client, now) {
            Some(r) => {
                &&& observe_step(v, client, port, now).pending == v.pending.push(
                    dispatch_for(v.rules[r], client),
                )
                &&& observe_step(v, client, port, now).clients[client].observed
                    == Seq::<i32>::empty()
            },
            None => {
                &&& observe_step(v, client, port, now).pending == v.pending
                &&& observe_step(v, client, port, now).clients[client].observed == live_observed(
                    v.clients,
                    client,
                    now,
                    v.timeout,
                ).push(port)
            },
        },
{
}

/// A dead entry never counts: a probe that arrives after the timeout starts
/// the client's record over at that one port, exactly as if the entry had
/// been removed before.
pub proof fn lemma_dead_entry_restarts(v: DetectorView, client: Seq<char>, port: i32, now: u64)
    requires
        is_relevant(v.rules, port),
        v.clients.dom().contains(client),
        is_stale(v.clients[client].last_observed_at, now, v.timeout),
    ensures
        recorded(v, client, port, now).clients[client] == (ClientView {
            observed: seq![port],
            last_observed_at: now,
        }),
        observe_step(v, client, port, now) == observe_step(
            DetectorView { clients: v.clients.remove(client), ..v },
            client,
            port,
            now,
        ),
{
    assert(Seq::<i32>::empty().push(port) =~= seq![port]);
    let purged = DetectorView { clients: v.clients.remove(client), ..v };
    let a = recorded(v, client, port, now);
    let b = recorded(purged, client, port, now);
    assert(a.clients =~= b.clients);
    assert(a == b);
}

/// Sweeping before an observation or after it, at the same instant, gives
/// the same detector: the observation never reads an entry that the sweep
/// would have removed.
pub proof fn lemma_sweep_then_observe(v: DetectorView, client: Seq<char>, port: i32, now: u64)
    ensures
        observe_step(sweep_step(v, now), client, port, now) == sweep_step(
            observe_step(v, client, port, now),
            now,
        ),
{
    let swept = sweep_step(v, now);
    if is_relevant(v.rules, port) {
        let a = recorded(swept, client, port, now);
        let b = recorded(v, client, port, now);
        assert(live_observed(swept.clients, client, now, v.timeout) == live_observed(
            v.clients,
            client,
            now,
            v.timeout,
        ));
        assert(a.clients[client] == b.clients[client]);
        assert(firing_rule(a, client, now) == firing_rule(b, client, now));
        let left = observe_step(swept, client, port, now);
        let right = sweep_step(observe_step(v, client, port, now), now);
        assert(left.pending == right.pending);
        assert(left.clients =~= right.clients);
    }
}

/// Something that happens to a detector.
pub enum Event {
    /// `client` probed `port` at time `at`.
    Probe { client: Seq<char>, port: i32, at: u64 },
    /// The rules were tried against `client`'s record at time `at`.
    Evaluate { client: Seq<char>, at: u64 },
    /// The expirer swept at time `at`.
    Sweep { at: u64 },
}

/// The detector after `event`.
pub open spec fn apply(v: DetectorView, event: Event) -> DetectorView {
    match event {
        Event::Probe { client, port, at } => observe_step(v, client, port, at),
        Event::Evaluate { client, at } => evaluate_step(v, client, at),
        Event::Sweep { at } => sweep_step(v, at),
    }
}

/// The detector after `events`, in order.
pub open spec fn run(v: DetectorView, events: Seq<Event>) -> DetectorView
    decreases events.len(),
{
    if events.len() == 0 {
        v
    } else {
        apply(run(v, events.drop_last()), events.last())
    }
}

/// `event` can touch the state of `client`: it is that client's own probe
/// or evaluation, or a sweep.
pub open spec fn concerns(event: Event, client: Seq<char>) -> bool {
    match event {
        Event::Probe { client: c, .. } => c == client,
        Event::Evaluate { client: c, .. } => c == client,
        Event::Sweep { .. } => true,
    }
}

/// The events that concern `client`, in order.
pub open spec fn events_of(events: Seq<Event>, client: Seq<char>) -> Seq<Event>
    decreases events.len(),
{
    if events.len() == 0 {
        Seq::empty()
    } else if concerns(events.last(), client) {
        events_of(events.drop_last(), client).push(events.last())
    } else {
        events_of(events.drop_last(), client)
    }
}

/// The commands in `pending` that were released for `client`, in order.
pub open spec fn dispatches_of(pending: Seq<DispatchView>, client: Seq<char>) -> Seq<DispatchView>
    decreases pending.len(),
{
    if pending.len() == 0 {
        Seq::empty()
    } else if pending.last().client_address == client {
        dispatches_of(pending.drop_last(), client).push(pending.last())
    } else {
        dispatches_of(pending.drop_last(), client)
    }
}

/// What the store holds for `client`, if anything.
pub open spec fn entry_of(clients: ClientMap, client: Seq<char>) -> Option<ClientView> {
    if clients.dom().contains(client) {
        Some(clients[client])
    } else {
        None
    }
}

/// Two detectors with the same rules look the same from where `client`
/// stands: same entry, same commands released for it.
pub open spec fn same_for(a: DetectorView, b: DetectorView, client: Seq<char>) -> bool {
    &&& a.rules == b.rules
    &&& a.timeout == b.timeout
    &&& entry_of(a.clients, client) == entry_of(b.clients, client)
    &&& dispatches_of(a.pending, client) == dispatches_of(b.pending, client)
}

proof fn lemma_dispatches_push(pending: Seq<DispatchView>, due: DispatchView, client: Seq<char>)
    ensures
        dispatches_of(pending.push(due), client) == if due.client_address == client {
            dispatches_of(pending, client).push(due)
        } else {
            dispatches_of(pending, client)
        },
{
    assert(pending.push(due).drop_last() =~= pending);
}

/// An event that does not concern `client` leaves its entry and its
/// commands alone.
pub proof fn lemma_other_client_untouched(v: DetectorView, event: Event, client: Seq<char>)
    requires
        !concerns(event, client),
    ensures
        same_for(apply(v, event), v, client),
{
    match event {
        Event::Probe { client: other, port, at } => {
            if is_relevant(v.rules, port) {
                let noted = recorded(v, other, port, at);
                match firing_rule(noted, other, at) {
                    Some(r) => {
                        lemma_dispatches_push(v.pending, dispatch_for(v.rules[r], other), client);
                    },
                    None => {},
                }
            }
        },
        Event::Evaluate { client: other, at } => {
            match firing_rule(v, other, at) {
                Some(r) => {
                    lemma_dispatches_push(v.pending, dispatch_for(v.rules[r], other), client);
                },
                None => {},
            }
        },
        Event::Sweep { at } => {},
    }
}

/// What an event does to a client depends only on what the detector holds
/// for that client.
pub proof fn lemma_event_is_local(a: DetectorView, b: DetectorView, event: Event, client: Seq<char>)
    requires
        same_for(a, b, client),
        concerns(event, client),
    ensures
        same_for(apply(a, event), apply(b, event), client),
{
    match event {
        Event::Probe { client: c, port, at } => {
            if is_relevant(a.rules, port) {
                let na = recorded(a, client, port, at);
                let nb = recorded(b, client, port, at);
                assert(na.clients[client] == nb.clients[client]);
                match firing_rule(na, client, at) {
                    Some(r) => {
                        let due = dispatch_for(a.rules[r], client);
                        lemma_dispatches_push(a.pending, due, client);
                        lemma_dispatches_push(b.pending, due, client);
                    },
                    None => {},
                }
            }
        },
        Event::Evaluate { client: c, at } => {
            match firing_rule(a, client, at) {
                Some(r) => {
                    let due = dispatch_for(a.rules[r], client);
                    lemma_dispatches_push(a.pending, due, client);
                    lemma_dispatches_push(b.pending, due, client);
                },
                None => {},
            }
        },
        Event::Sweep { at } => {},
    }
}

/// Clients are independent.
///
/// However the probes, evaluations and sweeps of many clients interleave,
/// what the detector ends up holding for one client (its record, its
/// timestamp and the commands released for it) is what it would hold had
/// only that client's own events and the sweeps taken place.
pub proof fn lemma_clients_independent(v: DetectorView, events: Seq<Event>, client: Seq<char>)
    ensures
        same_for(run(v, events), run(v, events_of(events, client)), client),
    decreases events.len(),
{
    if events.len() > 0 {
        let earlier = events.drop_last();
        let event = events.last();
        lemma_clients_independent(v, earlier, client);
        let a = run(v, earlier);
        let b = run(v, events_of(earlier, client));
        if concerns(event, client) {
            let mine = events_of(earlier, client).push(event);
            assert(mine.drop_last() =~= events_of(earlier, client));
            assert(mine.last() == event);
            lemma_event_is_local(a, b, event, client);
        } else {
            lemma_other_client_untouched(a, event, client);
        }
    }
}

/// Every port on every client's record is a port that some rule names.
pub open spec fn only_rule_ports(v: DetectorView) -> bool {
    forall|c: Seq<char>, k: int|
        v.clients.dom().contains(c) && 0 <= k < v.clients[c].observed.len() ==> is_relevant(
            v.rules,
            #[trigger] v.clients[c].observed[k],
        )
}

/// No event puts a port on record that no rule names, so scans of unrelated
/// ports never make the records grow.
pub proof fn lemma_only_rule_ports_kept(v: DetectorView, event: Event)
    requires
        only_rule_ports(v),
    ensures
        only_rule_ports(apply(v, event)),
        apply(v, event).rules == v.rules,
        apply(v, event).timeout == v.timeout,
{
    let w = apply(v, event);
    match event {
        Event::Probe { client, port, at } => {
            if is_relevant(v.rules, port) {
                let noted = recorded(v, client, port, at);
                assert(only_rule_ports(noted)) by {
                    assert forall|c: Seq<char>, k: int|
                        noted.clients.dom().contains(c) && 0 <= k
                            < noted.clients[c].observed.len() implies is_relevant(
                        noted.rules,
                        #[trigger] noted.clients[c].observed[k],
                    ) by {
                        if c == client {
                            let prior = live_observed(v.clients, client, at, v.timeout);
                            if k < prior.len() {
                                assert(prior[k] == v.clients[client].observed[k]);
                            }
                        } else {
                            assert(noted.clients[c].observed[k] == v.clients[c].observed[k]);
                        }
                    }
                }
                lemma_evaluate_keeps_rule_ports(noted, client, at);
            }
        },
        Event::Evaluate { client, at } => {
            lemma_evaluate_keeps_rule_ports(v, client, at);
        },
        Event::Sweep { at } => {
            assert forall|c: Seq<char>, k: int|
                w.clients.dom().contains(c) && 0 <= k
                    < w.clients[c].observed.len() implies is_relevant(
                w.rules,
                #[trigger] w.clients[c].observed[k],
            ) by {
                assert(w.clients[c].observed[k] == v.clients[c].observed[k]);
            }
        },
    }
}

proof fn lemma_evaluate_keeps_rule_ports(v: DetectorView, client: Seq<char>, now: u64)
    requires
        only_rule_ports(v),
    ensures
        only_rule_ports(evaluate_step(v, client, now)),
{
    let w = evaluate_step(v, client, now);
    assert forall|c: Seq<char>, k: int|
        w.clients.dom().contains(c) && 0 <= k < w.clients[c].observed.len() implies is_relevant(
        w.rules,
        #[trigger] w.clients[c].observed[k],
    ) by {
        if c != client || firing_rule(v, client, now).is_none() {
            assert(w.clients[c].observed[k] == v.clients[c].observed[k]);
        }
    }
}

/// From a fresh detector on, whatever happens, only rule ports are on
/// record.
pub proof fn lemma_records_hold_rule_ports(v: DetectorView, events: Seq<Event>)
    requires
        only_rule_ports(v),
    ensures
        only_rule_ports(run(v, events)),
        run(v, events).rules == v.rules,
        run(v, events).timeout == v.timeout,
    decreases events.len(),
{
    if events.len() > 0 {
        lemma_records_hold_rule_ports(v, events.drop_last());
        lemma_only_rule_ports_kept(run(v, events.drop_last()), events.last());
    }
}

} // verus!

//! Per-client knock state: the ports a client has probed so far and when it
//! was last seen.

use crate::config::copy_ports;
use vstd::prelude::*;

verus! {

/// What the store keeps for one client address.
#[derive(Debug)]
pub struct ClientState {
    pub client_address: String,
    pub observed: Vec<i32>,
    pub last_observed_at: u64,
}

/// Mathematical value of a client's state, without its key.
pub struct ClientView {
    pub observed: Seq<i32>,
    pub last_observed_at: u64,
}

/// The store as a mathematical map from client address to state.
pub type ClientMap = Map<Seq<char>, ClientView>;

/// An entry last touched at `last_observed_at` is dead at `now`: more than
/// `timeout` seconds have passed. A clock that ran backwards makes nothing
/// stale.
pub open spec fn is_stale(last_observed_at: u64, now: u64, timeout: u64) -> bool {
    now - last_observed_at > timeout
}

/// `client` is tracked and its entry is not dead at `now`.
pub open spec fn is_live(m: ClientMap, client: Seq<char>, now: u64, timeout: u64) -> bool {
    m.dom().contains(client) && !is_stale(m[client].last_observed_at, now, timeout)
}

/// The ports on record for `client` that still count at `now`: none for an
/// unknown client or a stale entry.
pub open spec fn live_observed(m: ClientMap, client: Seq<char>, now: u64, timeout: u64) -> Seq<
    i32,
> {
    if is_live(m, client, now, timeout) {
        m[client].observed
    } else {
        Seq::empty()
    }
}

/// The store after `client` probed `port` at `now`: the port is appended to
/// what still counts for that client, and the entry is stamped with `now`.
pub open spec fn record_spec(
    m: ClientMap,
    client: Seq<char>,
    port: i32,
    now: u64,
    timeout: u64,
) -> ClientMap {
    m.insert(
        client,
        ClientView {
            observed: live_observed(m, client, now, timeout).push(port),
            last_observed_at: now,
        },
    )
}

/// The store after `client`'s sequence was reset: the entry stays, with its
/// timestamp, and holds no ports. An unknown client changes nothing.
pub open spec fn clear_spec(m: ClientMap, client: Seq<char>) -> ClientMap {
    if m.dom().contains(client) {
        m.insert(
            client,
            ClientView { observed: Seq::empty(), last_observed_at: m[client].last_observed_at },
        )
    } else {
        m
    }
}

/// The clients whose entries are dead at `now`.
pub open spec fn stale_clients(m: ClientMap, now: u64, timeout: u64) -> Set<Seq<char>> {
    Set::new(|c: Seq<char>| m.dom().contains(c) && is_stale(m[c].last_observed_at, now, timeout))
}

/// The store after a sweep at `now`: exactly the dead entries are gone.
pub open spec fn purge_spec(m: ClientMap, now: u64, timeout: u64) -> ClientMap {
    m.remove_keys(stale_clients(m, now, timeout))
}

/// Decides whether an entry last touched at `last_observed_at` is dead at `now`.
pub fn stale(last_observed_at: u64, now: u64, timeout: u64) -> (dead: bool)
    ensures
        dead == is_stale(last_observed_at, now, timeout),
{
    now > last_observed_at && now - last_observed_at > timeout
}

spec fn address_at(es: Seq<ClientState>, i: int) -> Seq<char> {
    es[i].client_address@
}

spec fn state_view(e: ClientState) -> ClientView {
    ClientView { observed: e.observed@, last_observed_at: e.last_observed_at }
}

spec fn holds(es: Seq<ClientState>, c: Seq<char>) -> bool {
    exists|i: int| 0 <= i < es.len() && #[trigger] address_at(es, i) == c
}

spec fn distinct(es: Seq<ClientState>) -> bool {
    forall|i: int, j: int|
        0 <= i < es.len() && 0 <= j < es.len() && i != j ==> #[trigger] address_at(es, i)
            != #[trigger] address_at(es, j)
}

spec fn entries_map(es: Seq<ClientState>) -> ClientMap {
    Map::new(
        |c: Seq<char>| holds(es, c),
        |c: Seq<char>|
            state_view(es[choose|i: int| 0 <= i < es.len() && #[trigger] address_at(es, i) == c]),
    )
}

proof fn lemma_lookup(es: Seq<ClientState>, i: int)
    requires
        distinct(es),
        0 <= i < es.len(),
    ensures
        entries_map(es).dom().contains(address_at(es, i)),
        entries_map(es)[address_at(es, i)] == state_view(es[i]),
{
    let c = address_at(es, i);
    assert(holds(es, c));
    let k = choose|k: int| 0 <= k < es.len() && #[trigger] address_at(es, k) == c;
    assert(k == i);
}

proof fn lemma_absent(es: Seq<ClientState>, c: Seq<char>)
    requires
        forall|i: int| 0 <= i < es.len() ==> #[trigger] address_at(es, i) != c,
    ensures
        !entries_map(es).dom().contains(c),
{
}

proof fn lemma_update(es: Seq<ClientState>, after: Seq<ClientState>, i: int)
    requires
        distinct(es),
        0 <= i < es.len(),
        after.len() == es.len(),
        address_at(after, i) == address_at(es, i),
        forall|j: int| 0 <= j < es.len() && j != i ==> after[j] == es[j],
    ensures
        distinct(after),
        entries_map(after) == entries_map(es).insert(address_at(es, i), state_view(after[i])),
{
    assert forall|j: int| 0 <= j < es.len() implies address_at(after, j) == address_at(es, j) by {}
    assert(distinct(after)) by {
        assert forall|a: int, b: int|
            0 <= a < after.len() && 0 <= b < after.len() && a != b implies #[trigger] address_at(
            after,
            a,
        ) != #[trigger] address_at(after, b) by {
            assert(address_at(after, a) == address_at(es, a));
            assert(address_at(after, b) == address_at(es, b));
        }
    }
    let target = entries_map(es).insert(address_at(es, i), state_view(after[i]));
    assert forall|c: Seq<char>| entries_map(after).dom().contains(c) <==> target.dom().contains(
        c,
    ) by {
        if holds(after, c) {
            let k = choose|k: int| 0 <= k < after.len() && #[trigger] address_at(after, k) == c;
            assert(address_at(es, k) == c);
        }
        if holds(es, c) {
            let k = choose|k: int| 0 <= k < es.len() && #[trigger] address_at(es, k) == c;
            assert(address_at(after, k) == c);
        }
        if c == address_at(es, i) {
            assert(address_at(after, i) == c);
        }
    }
    assert forall|c: Seq<char>| entries_map(after).dom().contains(c) implies entries_map(after)[c]
        == target[c] by {
        let k = choose|k: int| 0 <= k < after.len() && #[trigger] address_at(after, k) == c;
        lemma_lookup(after, k);
        if k != i {
            assert(address_at(es, k) == c);
            lemma_lookup(es, k);
        }
    }
    assert(entries_map(after) =~= target);
}

proof fn lemma_push(es: Seq<ClientState>, e: ClientState)
    requires
        distinct(es),
        !entries_map(es).dom().contains(e.client_address@),
    ensures
        distinct(es.push(e)),
        entries_map(es.push(e)) == entries_map(es).insert(e.client_address@, state_view(e)),
{
    let after = es.push(e);
    let n = es.len() as int;
    assert forall|j: int| 0 <= j < n implies address_at(after, j) == address_at(es, j) by {}
    assert(address_at(after, n) == e.client_address@);
    assert(distinct(after)) by {
        assert forall|a: int, b: int|
            0 <= a < after.len() && 0 <= b < after.len() && a != b implies #[trigger] address_at(
            after,
            a,
        ) != #[trigger] address_at(after, b) by {
            if a < n && b < n {
                assert(address_at(after, a) == address_at(es, a));
                assert(address_at(after, b) == address_at(es, b));
            } else if a < n {
                assert(address_at(es, a) == address_at(after, a));
                assert(holds(es, address_at(es, a)));
            } else {
                assert(address_at(es, b) == address_at(after, b));
                assert(holds(es, address_at(es, b)));
            }
        }
    }
    let target = entries_map(es).insert(e.client_address@, state_view(e));
    assert forall|c: Seq<char>| entries_map(after).dom().contains(c) <==> target.dom().contains(
        c,
    ) by {
        if holds(after, c) {
            let k = choose|k: int| 0 <= k < after.len() && #[trigger] address_at(after, k) == c;
            if k < n {
                assert(address_at(es, k) == c);
            }
        }
        if holds(es, c) {
            let k = choose|k: int| 0 <= k < es.len() && #[trigger] address_at(es, k) == c;
            assert(address_at(after, k) == c);
        }
        if c == e.client_address@ {
            assert(address_at(after, n) == c);
        }
    }
    assert forall|c: Seq<char>| entries_map(after).dom().contains(c) implies entries_map(after)[c]
        == target[c] by {
        let k = choose|k: int| 0 <= k < after.len() && #[trigger] address_at(after, k) == c;
        lemma_lookup(after, k);
        if k < n {
            assert(address_at(es, k) == c);
            lemma_lookup(es, k);
        }
    }
    assert(entries_map(after) =~= target);
}

proof fn lemma_remove(es: Seq<ClientState>, i: int)
    requires
        distinct(es),
        0 <= i < es.len(),
    ensures
        distinct(es.remove(i)),
        entries_map(es.remove(i)) == entries_map(es).remove(address_at(es, i)),
{
    let after = es.remove(i);
    assert forall|j: int| 0 <= j < after.len() implies address_at(after, j) == address_at(
        es,
        if j < i {
            j
        } else {
            j + 1
        },
    ) by {}
    assert(distinct(after)) by {
        assert forall|a: int, b: int|
            0 <= a < after.len() && 0 <= b < after.len() && a != b implies #[trigger] address_at(
            after,
            a,
        ) != #[trigger] address_at(after, b) by {
            let a0 = if a < i { a } else { a + 1 };
            let b0 = if b < i { b } else { b + 1 };
            assert(address_at(after, a) == address_at(es, a0));
            assert(address_at(after, b) == address_at(es, b0));
        }
    }
    let gone = address_at(es, i);
    let target = entries_map(es).remove(gone);
    assert forall|c: Seq<char>| entries_map(after).dom().contains(c) <==> target.dom().contains(
        c,
    ) by {
        if holds(after, c) {
            let k = choose|k: int| 0 <= k < after.len() && #[trigger] address_at(after, k) == c;
            let k0 = if k < i { k } else { k + 1 };
            assert(address_at(es, k0) == c);
        }
        if holds(es, c) && c != gone {
            let k = choose|k: int| 0 <= k < es.len() && #[trigger] address_at(es, k) == c;
            let k1 = if k < i { k } else { k - 1 };
            assert(address_at(after, k1) == c);
        }
    }
    assert forall|c: Seq<char>| entries_map(after).dom().contains(c) implies entries_map(after)[c]
        == target[c] by {
        let k = choose|k: int| 0 <= k < after.len() && #[trigger] address_at(after, k) == c;
        let k0 = if k < i { k } else { k + 1 };
        lemma_lookup(after, k);
        assert(address_at(es, k0) == c);
        lemma_lookup(es, k0);
    }
    assert(entries_map(after) =~= target);
}

proof fn lemma_size(es: Seq<ClientState>)
    requires
        distinct(es),
    ensures
        entries_map(es).dom().finite(),
        entries_map(es).dom().len() == es.len(),
    decreases es.len(),
{
    if es.len() == 0 {
        assert(entries_map(es).dom() =~= Set::<Seq<char>>::empty());
    } else {
        let i = es.len() - 1;
        lemma_lookup(es, i);
        lemma_remove(es, i);
        lemma_size(es.remove(i));
        let rest = entries_map(es.remove(i)).dom();
        assert(entries_map(es).dom() =~= rest.insert(address_at(es, i)));
    }
}

/// The per-client states, one entry per client address.
#[derive(Debug)]
pub struct ClientStateStore {
    entries: Vec<ClientState>,
}

impl View for ClientStateStore {
    type V = ClientMap;

    closed spec fn view(&self) -> ClientMap {
        entries_map(self.entries@)
    }
}

impl ClientStateStore {
    /// No client address is held twice.
    pub closed spec fn wf(&self) -> bool {
        distinct(self.entries@)
    }

    /// A store that tracks no client.
    pub fn new() -> (store: Self)
        ensures
            store.wf(),
            store@ == Map::<Seq<char>, ClientView>::empty(),
    {
        let store = ClientStateStore { entries: Vec::new() };
        proof {
            assert(store@ =~= Map::<Seq<char>, ClientView>::empty());
        }
        store
    }

    fn position(&self, key: &String) -> (found: Option<usize>)
        ensures
            match found {
                Some(i) => i < self.entries.len() && address_at(self.entries@, i as int) == key@,
                None => forall|i: int|
                    0 <= i < self.entries.len() ==> #[trigger] address_at(self.entries@, i)
                        != key@,
            },
    {
        let mut i: usize = 0;
        while i < self.entries.len()
            invariant
                i <= self.entries.len(),
                forall|j: int| 0 <= j < i ==> #[trigger] address_at(self.entries@, j) != key@,
            decreases self.entries.len() - i,
        {
            if self.entries[i].client_address == *key {
                return Some(i);
            }
            i += 1;
        }
        None
    }

    /// The number of clients tracked.
    pub fn len(&self) -> (count: usize)
        requires
            self.wf(),
        ensures
            self@.dom().finite(),
            count == self@.dom().len(),
    {
        proof {
            lemma_size(self.entries@);
        }
        self.entries.len()
    }

    /// A copy of the ports on record for `client_address`, if it is tracked.
    pub fn observed(&self, client_address: &str) -> (ports: Option<Vec<i32>>)
        requires
            self.wf(),
        ensures
            match ports {
                Some(v) => self@.dom().contains(client_address@) && v@
                    == self@[client_address@].observed,
                None => !self@.dom().contains(client_address@),
            },
    {
        let key = client_address.to_owned();
        match self.position(&key) {
            Some(i) => {
                proof {
                    lemma_lookup(self.entries@, i as int);
                }
                Some(copy_ports(&self.entries[i].observed))
            },
            None => {
                proof {
                    lemma_absent(self.entries@, key@);
                }
                None
            },
        }
    }

    /// When `client_address` was last seen, if it is tracked.
    pub fn last_observed_at(&self, client_address: &str) -> (seen: Option<u64>)
        requires
            self.wf(),
        ensures
            match seen {
                Some(t) => self@.dom().contains(client_address@) && t
                    == self@[client_address@].last_observed_at,
                None => !self@.dom().contains(client_address@),
            },
    {
        let key = client_address.to_owned();
        match self.position(&key) {
            Some(i) => {
                proof {
                    lemma_lookup(self.entries@, i as int);
                }
                Some(self.entries[i].last_observed_at)
            },
            None => {
                proof {
                    lemma_absent(self.entries@, key@);
                }
                None
            },
        }
    }

    /// A copy of the ports on record for `client_address`, if it is tracked
    /// and its entry is not dead at `now`.
    pub fn live_sequence(&self, client_address: &str, now: u64, timeout: u64) -> (ports: Option<
        Vec<i32>,
    >)
        requires
            self.wf(),
        ensures
            match ports {
                Some(v) => is_live(self@, client_address@, now, timeout) && v@
                    == self@[client_address@].observed,
                None => !is_live(self@, client_address@, now, timeout),
            },
    {
        let key = client_address.to_owned();
        match self.position(&key) {
            Some(i) => {
                proof {
                    lemma_lookup(self.entries@, i as int);
                }
                if stale(self.entries[i].last_observed_at, now, timeout) {
                    None
                } else {
                    Some(copy_ports(&self.entries[i].observed))
                }
            },
            None => {
                proof {
                    lemma_absent(self.entries@, key@);
                }
                None
            },
        }
    }

    /// Records that `client_address` probed `port` at `now`. A dead entry
    /// counts as absent, so the client starts over at `[port]`. Returns a
    /// copy of the client's sequence after the probe.
    pub fn record(&mut self, client_address: &str, port: i32, now: u64, timeout: u64) -> (observed:
        Vec<i32>)
        requires
            old(self).wf(),
        ensures
            final(self).wf(),
            final(self)@ == record_spec(old(self)@, client_address@, port, now, timeout),
            observed@ == live_observed(old(self)@, client_address@, now, timeout).push(port),
    {
        let key = client_address.to_owned();
        match self.position(&key) {
            Some(i) => {
                proof {
                    lemma_lookup(self.entries@, i as int);
                }
                if stale(self.entries[i].last_observed_at, now, timeout) {
                    self.entries[i].observed.clear();
                }
                self.entries[i].observed.push(port);
                self.entries[i].last_observed_at = now;
                proof {
                    lemma_update(old(self).entries@, self.entries@, i as int);
                }
                copy_ports(&self.entries[i].observed)
            },
            None => {
                proof {
                    lemma_absent(self.entries@, key@);
                }
                let mut observed: Vec<i32> = Vec::new();
                observed.push(port);
                let snapshot = copy_ports(&observed);
                let entry = ClientState { client_address: key, observed, last_observed_at: now };
                proof {
                    lemma_push(self.entries@, entry);
                }
                self.entries.push(entry);
                snapshot
            },
        }
    }

    /// Resets the sequence of `client_address` to empty. The entry and its
    /// timestamp stay; an unknown client is left unknown.
    pub fn clear(&mut self, client_address: &str)
        requires
            old(self).wf(),
        ensures
            final(self).wf(),
            final(self)@ == clear_spec(old(self)@, client_address@),
    {
        let key = client_address.to_owned();
        match self.position(&key) {
            Some(i) => {
                proof {
                    lemma_lookup(self.entries@, i as int);
                }
                self.entries[i].observed.clear();
                proof {
                    lemma_update(old(self).entries@, self.entries@, i as int);
                }
            },
            None => {
                proof {
                    lemma_absent(self.entries@, key@);
                }
            },
        }
    }

    /// Removes every entry that is dead at `now` and returns how many were
    /// removed.
    pub fn purge_stale(&mut self, now: u64, timeout: u64) -> (removed: usize)
        requires
            old(self).wf(),
        ensures
            final(self).wf(),
            final(self)@ == purge_spec(old(self)@, now, timeout),
            removed == stale_clients(old(self)@, now, timeout).len(),
    {
        let ghost before = self@;
        let ghost mut gone: Set<Seq<char>> = Set::empty();
        let total: usize = self.entries.len();
        let mut removed: usize = 0;
        let mut i: usize = 0;
        proof {
            lemma_size(self.entries@);
            assert(before.remove_keys(gone) =~= before);
        }
        while i < self.entries.len()
            invariant
                i <= self.entries.len(),
                distinct(self.entries@),
                before.dom().finite(),
                gone.finite(),
                gone.len() == removed,
                removed + self.entries.len() == total,
                gone.subset_of(stale_clients(before, now, timeout)),
                entries_map(self.entries@) == before.remove_keys(gone),
                forall|j: int|
                    0 <= j < i ==> !is_stale(
                        (#[trigger] self.entries@[j]).last_observed_at,
                        now,
                        timeout,
                    ),
            decreases self.entries.len() - i,
        {
            if stale(self.entries[i].last_observed_at, now, timeout) {
                proof {
                    let c = address_at(self.entries@, i as int);
                    lemma_lookup(self.entries@, i as int);
                    lemma_remove(self.entries@, i as int);
                    assert(before.dom().contains(c) && before[c] == state_view(
                        self.entries@[i as int],
                    ));
                    assert(!gone.contains(c));
                    assert(before.remove_keys(gone).remove(c) =~= before.remove_keys(
                        gone.insert(c),
                    ));
                    gone = gone.insert(c);
                }
                self.entries.remove(i);
                removed += 1;
            } else {
                i += 1;
            }
        }
        proof {
            let dead = stale_clients(before, now, timeout);
            assert forall|c: Seq<char>| dead.contains(c) implies gone.contains(c) by {
                if !gone.contains(c) {
                    assert(entries_map(self.entries@).dom().contains(c));
                    let k = choose|k: int|
                        0 <= k < self.entries@.len() && #[trigger] address_at(self.entries@, k)
                            == c;
                    lemma_lookup(self.entries@, k);
                    assert(!is_stale(self.entries@[k].last_observed_at, now, timeout));
                }
            }
            assert(gone =~= dead);
        }
        removed
    }
}

} // verus!

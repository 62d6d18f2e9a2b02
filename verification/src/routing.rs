//! The state a node keeps: its routing table, its own sequence number and the
//! route requests it has seen of late.

use vstd::prelude::*;
use vstd::std_specs::hash::*;
use vstd::std_specs::iter::IteratorSpec;
use std::collections::HashMap;
use std::collections::HashSet;
use crate::wire::Ipv4Addr;

verus! {

broadcast use vstd::std_specs::hash::group_hash_axioms;

/// An entry of the routing table. Addresses in the precursor set are held as
/// numbers; a lifetime is a point in time, in milliseconds.
#[derive(Debug, PartialEq, Eq)]
pub struct Route {
    pub dest_ip: Ipv4Addr,
    pub dest_seq_num: u32,
    pub valid_dest_seq_num: bool,
    pub valid: bool,
    pub interface: String,
    pub hop_count: u8,
    pub next_hop: Ipv4Addr,
    pub precursors: HashSet<u32>,
    pub lifetime: i64,
}

/// What a route says.
pub struct RouteView {
    pub dest_ip: Ipv4Addr,
    pub dest_seq_num: u32,
    pub valid_dest_seq_num: bool,
    pub valid: bool,
    pub interface: Seq<char>,
    pub hop_count: u8,
    pub next_hop: Ipv4Addr,
    pub precursors: Set<u32>,
    pub lifetime: i64,
}

impl View for Route {
    type V = RouteView;

    open spec fn view(&self) -> RouteView {
        RouteView {
            dest_ip: self.dest_ip,
            dest_seq_num: self.dest_seq_num,
            valid_dest_seq_num: self.valid_dest_seq_num,
            valid: self.valid,
            interface: self.interface@,
            hop_count: self.hop_count,
            next_hop: self.next_hop,
            precursors: self.precursors@,
            lifetime: self.lifetime,
        }
    }
}

/// A set with the members of `s`.
pub fn copy_set(s: &HashSet<u32>) -> (out: HashSet<u32>)
    ensures
        out@ == s@,
{
    let mut out: HashSet<u32> = HashSet::new();
    for k in it: s.iter()
        invariant
            it.seq() == spec_hash_keys_iter(s).remaining(),
            forall|x: u32|
                out@.contains(x) <==> exists|i: int| 0 <= i < it.index() && *it.seq()[i] == x,
    {
        out.insert(*k);
    }
    proof {
        let keys = spec_hash_keys_iter(s).remaining();
        assert(keys.unref().to_set() == s@);
        assert forall|x: u32| out@.contains(x) <==> s@.contains(x) by {
            if out@.contains(x) {
                let i = choose|i: int| 0 <= i < keys.len() && *keys[i] == x;
                assert(keys.unref()[i] == x);
                assert(keys.unref().contains(x));
            }
            if s@.contains(x) {
                assert(keys.unref().contains(x));
                let i = choose|i: int| 0 <= i < keys.unref().len() && keys.unref()[i] == x;
                assert(*keys[i] == x);
            }
        }
        assert(out@ =~= s@);
    }
    out
}

impl Clone for Route {
    /// A copy of the route.
    fn clone(&self) -> (out: Route)
        ensures
            out@ == self@,
    {
        Route {
            dest_ip: self.dest_ip,
            dest_seq_num: self.dest_seq_num,
            valid_dest_seq_num: self.valid_dest_seq_num,
            valid: self.valid,
            interface: self.interface.clone(),
            hop_count: self.hop_count,
            next_hop: self.next_hop,
            precursors: copy_set(&self.precursors),
            lifetime: self.lifetime,
        }
    }
}

/// Whether the entry in the table is to stay when `incoming` is offered for the
/// same destination: it has a sequence number that is known, and the incoming
/// one is older, or is the same with a hop count that is no better.
pub open spec fn prefers_existing(existing: RouteView, incoming: RouteView) -> bool {
    existing.valid_dest_seq_num && (incoming.dest_seq_num < existing.dest_seq_num || (
    incoming.dest_seq_num == existing.dest_seq_num && incoming.hop_count >= existing.hop_count))
}

/// The table after `incoming` was offered to it.
pub open spec fn after_set_route(
    table: Map<u32, RouteView>,
    local: Ipv4Addr,
    incoming: RouteView,
) -> Map<u32, RouteView> {
    let key = incoming.dest_ip.bits;
    if incoming.dest_ip == local {
        table
    } else if table.contains_key(key) && prefers_existing(table[key], incoming) {
        table
    } else {
        table.insert(key, incoming)
    }
}

/// The table after `incoming` was put into it.
pub open spec fn after_put_route(
    table: Map<u32, RouteView>,
    local: Ipv4Addr,
    incoming: RouteView,
) -> Map<u32, RouteView> {
    if incoming.dest_ip == local {
        table
    } else {
        table.insert(incoming.dest_ip.bits, incoming)
    }
}

/// The table after `neighbor` was made a precursor of the route to `destination`.
pub open spec fn after_add_precursor(
    table: Map<u32, RouteView>,
    destination: Ipv4Addr,
    neighbor: Ipv4Addr,
) -> Map<u32, RouteView> {
    let key = destination.bits;
    if table.contains_key(key) {
        table.insert(
            key,
            RouteView { precursors: table[key].precursors.insert(neighbor.bits), ..table[key] },
        )
    } else {
        table
    }
}

/// The table after the route to `destination` was used at the time `now`.
pub open spec fn after_used(
    table: Map<u32, RouteView>,
    destination: Ipv4Addr,
    now: i64,
    active_route_timeout: i64,
) -> Map<u32, RouteView> {
    let key = destination.bits;
    if table.contains_key(key) && table[key].valid {
        table.insert(
            key,
            RouteView { lifetime: (now + active_route_timeout) as i64, ..table[key] },
        )
    } else {
        table
    }
}

/// The sequence number that follows `n`; after the largest comes 0.
pub open spec fn next_seq_num(n: u32) -> u32 {
    if n == u32::MAX {
        0
    } else {
        (n + 1) as u32
    }
}

/// The table after the route to `destination` was invalidated at the time `now`.
pub open spec fn after_invalidate(
    table: Map<u32, RouteView>,
    destination: Ipv4Addr,
    now: i64,
    delete_period: i64,
) -> Map<u32, RouteView> {
    let key = destination.bits;
    if table.contains_key(key) {
        table.insert(
            key,
            RouteView {
                valid: false,
                valid_dest_seq_num: true,
                dest_seq_num: next_seq_num(table[key].dest_seq_num),
                lifetime: (now + delete_period) as i64,
                ..table[key]
            },
        )
    } else {
        table
    }
}

/// The table after the timer of the route to `destination` went off at the time
/// `now`: a valid route whose lifetime is over becomes invalid, an invalid one
/// that has outlived its lifetime by the delete period leaves the table, and
/// nothing happens before that.
pub open spec fn after_expire(
    table: Map<u32, RouteView>,
    destination: Ipv4Addr,
    now: i64,
    delete_period: i64,
) -> Map<u32, RouteView> {
    let key = destination.bits;
    if !table.contains_key(key) {
        table
    } else if table[key].valid {
        if now >= table[key].lifetime {
            table.insert(key, RouteView { valid: false, ..table[key] })
        } else {
            table
        }
    } else if now >= table[key].lifetime + delete_period {
        table.remove(key)
    } else {
        table
    }
}

/// The table after the timer of every route went off at the time `now`: each
/// route is as `after_expire` leaves it.
pub open spec fn after_expire_all(
    table: Map<u32, RouteView>,
    now: i64,
    delete_period: i64,
) -> Map<u32, RouteView> {
    Map::new(
        |k: u32| table.contains_key(k) && (table[k].valid || now < table[k].lifetime + delete_period),
        |k: u32|
            if table[k].valid && now >= table[k].lifetime {
                RouteView { valid: false, ..table[k] }
            } else {
                table[k]
            },
    )
}

/// Whether every route of the table has at least one hop, as every route to
/// another node has.
pub open spec fn hops_counted(table: Map<u32, RouteView>) -> bool {
    forall|k: u32| #[trigger] table.contains_key(k) ==> table[k].hop_count >= 1
}

/// The entry of a table under a key, if it has one.
pub open spec fn entry_at(table: Map<u32, RouteView>, key: u32) -> Option<RouteView> {
    if table.contains_key(key) {
        Some(table[key])
    } else {
        None
    }
}

/// The table after the route to `destination` was reported broken at the time
/// `now`, with the sequence number `seq_num`: the route is invalidated, and
/// then takes the reported sequence number if that is greater than its own.
pub open spec fn after_break(
    table: Map<u32, RouteView>,
    destination: Ipv4Addr,
    seq_num: u32,
    now: i64,
    delete_period: i64,
) -> Map<u32, RouteView> {
    let key = destination.bits;
    let invalidated = after_invalidate(table, destination, now, delete_period);
    if invalidated.contains_key(key) && seq_num > invalidated[key].dest_seq_num {
        invalidated.insert(key, RouteView { dest_seq_num: seq_num, ..invalidated[key] })
    } else {
        invalidated
    }
}

/// Whether some route of the table has `hop` as its next hop.
pub open spec fn depends_on(table: Map<u32, RouteView>, hop: Ipv4Addr) -> bool {
    exists|k: u32| #[trigger] table.contains_key(k) && table[k].next_hop == hop
}

/// The routes of a node, one at most for a destination, none to the node itself.
pub struct RoutingTable {
    pub routes: HashMap<u32, Route>,
    pub local: Ipv4Addr,
}

impl View for RoutingTable {
    type V = Map<u32, RouteView>;

    /// The routes by the number of their destination's address.
    open spec fn view(&self) -> Map<u32, RouteView> {
        self.routes@.map_values(|r: Route| r@)
    }
}

impl RoutingTable {
    /// Every route stands under its own destination, and none leads to the
    /// node's own address.
    pub open spec fn wf(self) -> bool {
        &&& forall|k: u32| #[trigger]
            self.routes@.contains_key(k) ==> self.routes@[k].dest_ip.bits == k
        &&& !self.routes@.contains_key(self.local.bits)
    }

    /// The empty table of the node with the address `local`.
    pub fn new(local: Ipv4Addr) -> (table: RoutingTable)
        ensures
            table.wf(),
            table.local == local,
            table@ == Map::<u32, RouteView>::empty(),
    {
        let table = RoutingTable { routes: HashMap::new(), local };
        assert(table@ =~= Map::<u32, RouteView>::empty());
        table
    }

    /// Adds the route, or puts it in place of the one to the same destination,
    /// unless that one is to be preferred.
    pub fn set_route(&mut self, route: Route)
        requires
            old(self).wf(),
        ensures
            final(self).wf(),
            final(self).local == old(self).local,
            final(self)@ == after_set_route(old(self)@, old(self).local, route@),
    {
        let key: u32 = route.dest_ip.to_bits();
        if key == self.local.to_bits() {
            return ;
        }
        let keep: bool = match self.routes.get(&key) {
            Some(existing) => existing.valid_dest_seq_num && (route.dest_seq_num
                < existing.dest_seq_num || (route.dest_seq_num == existing.dest_seq_num
                && route.hop_count >= existing.hop_count)),
            None => false,
        };
        if !keep {
            self.routes.insert(key, route);
            assert(self@ =~= old(self)@.insert(key, route@));
        }
    }

    /// Adds the route, in place of the one to the same destination if there is one.
    pub fn put_route(&mut self, route: Route)
        requires
            old(self).wf(),
        ensures
            final(self).wf(),
            final(self).local == old(self).local,
            final(self)@ == after_put_route(old(self)@, old(self).local, route@),
    {
        let key: u32 = route.dest_ip.to_bits();
        if key == self.local.to_bits() {
            return ;
        }
        self.routes.insert(key, route);
        assert(self@ =~= old(self)@.insert(key, route@));
    }

    /// Adds a precursor to the route to `route`, if there is such a route.
    pub fn add_precursor(&mut self, route: Ipv4Addr, precursor: Ipv4Addr)
        requires
            old(self).wf(),
        ensures
            final(self).wf(),
            final(self).local == old(self).local,
            final(self)@ == after_add_precursor(old(self)@, route, precursor),
    {
        let key: u32 = route.to_bits();
        match self.routes.remove(&key) {
            Some(mut r) => {
                let ghost before = r@;
                r.precursors.insert(precursor.to_bits());
                assert(r@ == (RouteView {
                    precursors: before.precursors.insert(precursor.bits),
                    ..before
                }));
                self.routes.insert(key, r);
                assert(self@ =~= after_add_precursor(old(self)@, route, precursor));
            },
            None => {
                assert(self@ =~= old(self)@);
            },
        }
    }

    /// A copy of the route to `destination`, if there is one.
    pub fn lookup(&self, destination: Ipv4Addr) -> (found: Option<Route>)
        ensures
            match found {
                Some(r) => self@.contains_key(destination.bits) && r@ == self@[destination.bits],
                None => !self@.contains_key(destination.bits),
            },
    {
        let key: u32 = destination.to_bits();
        match self.routes.get(&key) {
            Some(r) => Some(r.clone()),
            None => None,
        }
    }

    /// Whether the table holds a route to `destination`.
    pub fn contains(&self, destination: Ipv4Addr) -> (found: bool)
        ensures
            found == self@.contains_key(destination.bits),
    {
        let key: u32 = destination.to_bits();
        self.routes.contains_key(&key)
    }

    /// Refreshes the lifetime of the route to `route`, if it is a valid one: it
    /// then lasts for the active route timeout from `now` on.
    pub fn used(&mut self, route: Ipv4Addr, now: i64, active_route_timeout: i64)
        requires
            old(self).wf(),
            i64::MIN <= now + active_route_timeout <= i64::MAX,
        ensures
            final(self).wf(),
            final(self).local == old(self).local,
            final(self)@ == after_used(old(self)@, route, now, active_route_timeout),
    {
        let key: u32 = route.to_bits();
        match self.routes.remove(&key) {
            Some(mut r) => {
                if r.valid {
                    r.lifetime = now + active_route_timeout;
                }
                self.routes.insert(key, r);
                assert(self@ =~= after_used(old(self)@, route, now, active_route_timeout));
            },
            None => {
                assert(self@ =~= old(self)@);
            },
        }
    }

    /// Marks the route to `destination` as broken, if there is one: it is no
    /// longer valid, its sequence number is known and one further, and it
    /// stays for the delete period from `now` on.
    pub fn invalidate(&mut self, destination: Ipv4Addr, now: i64, delete_period: i64)
        requires
            old(self).wf(),
            i64::MIN <= now + delete_period <= i64::MAX,
        ensures
            final(self).wf(),
            final(self).local == old(self).local,
            final(self)@ == after_invalidate(old(self)@, destination, now, delete_period),
    {
        let key: u32 = destination.to_bits();
        match self.routes.remove(&key) {
            Some(mut r) => {
                r.valid = false;
                r.valid_dest_seq_num = true;
                r.dest_seq_num = if r.dest_seq_num == u32::MAX {
                    0
                } else {
                    r.dest_seq_num + 1
                };
                r.lifetime = now + delete_period;
                self.routes.insert(key, r);
                assert(self@ =~= after_invalidate(old(self)@, destination, now, delete_period));
            },
            None => {
                assert(self@ =~= old(self)@);
            },
        }
    }

    /// Lets the timer of the route to `destination` go off at the time `now`.
    /// A timer that goes off too early changes nothing.
    pub fn expire(&mut self, destination: Ipv4Addr, now: i64, delete_period: i64)
        requires
            old(self).wf(),
        ensures
            final(self).wf(),
            final(self).local == old(self).local,
            final(self)@ == after_expire(old(self)@, destination, now, delete_period),
    {
        let key: u32 = destination.to_bits();
        match self.routes.remove(&key) {
            Some(mut r) => {
                if r.valid {
                    if now >= r.lifetime {
                        r.valid = false;
                    }
                    self.routes.insert(key, r);
                } else if (now as i128) < (r.lifetime as i128) + (delete_period as i128) {
                    self.routes.insert(key, r);
                }
                assert(self@ =~= after_expire(old(self)@, destination, now, delete_period));
            },
            None => {
                assert(self@ =~= old(self)@);
            },
        }
    }

    /// Lets the timer of every route go off at the time `now`.
    pub fn expire_all(&mut self, now: i64, delete_period: i64)
        requires
            old(self).wf(),
        ensures
            final(self).wf(),
            final(self).local == old(self).local,
            final(self)@ == after_expire_all(old(self)@, now, delete_period),
    {
        let mut keys: Vec<u32> = Vec::new();
        for k in it: self.routes.keys()
            invariant
                it.seq() == spec_keys_iter(&self.routes).remaining(),
                keys@.len() == it.index(),
                forall|j: int| 0 <= j < keys@.len() ==> keys@[j] == *it.seq()[j],
        {
            keys.push(*k);
        }
        proof {
            let all = spec_keys_iter(&self.routes).remaining();
            assert(all.unref().to_set() == self.routes@.dom());
            assert(keys@ =~= all.unref());
            assert forall|a: int, b: int| 0 <= a < b < keys@.len() implies keys@[a] != keys@[b] by {
                assert(all[a] != all[b]);
            }
        }
        let ghost swept = after_expire_all(old(self)@, now, delete_period);
        let mut i: usize = 0;
        while i < keys.len()
            invariant
                i <= keys@.len(),
                self.wf(),
                self.local == old(self).local,
                swept == after_expire_all(old(self)@, now, delete_period),
                keys@.to_set() == old(self).routes@.dom(),
                forall|a: int, b: int| 0 <= a < b < keys@.len() ==> keys@[a] != keys@[b],
                forall|x: u32|
                    (exists|j: int| 0 <= j < i && keys@[j] == x) ==> #[trigger] entry_at(self@, x)
                        == entry_at(swept, x),
                forall|x: u32|
                    !(exists|j: int| 0 <= j < i && keys@[j] == x) ==> #[trigger] entry_at(self@, x)
                        == entry_at(old(self)@, x),
            decreases keys@.len() - i,
        {
            let key: u32 = keys[i];
            let ghost before = self@;
            self.expire(Ipv4Addr::from_bits(key), now, delete_period);
            proof {
                assert(!(exists|j: int| 0 <= j < i && keys@[j] == key));
                assert(entry_at(before, key) == entry_at(old(self)@, key));
                assert(keys@.contains(key));
                assert(old(self).routes@.dom().contains(key));
                assert forall|x: u32|
                    (exists|j: int| 0 <= j < i + 1 && keys@[j] == x) implies #[trigger] entry_at(
                    self@,
                    x,
                ) == entry_at(swept, x) by {
                    if x != key {
                        let j = choose|j: int| 0 <= j < i + 1 && keys@[j] == x;
                        assert(0 <= j < i && keys@[j] == x);
                        assert(entry_at(before, x) == entry_at(swept, x));
                    }
                }
                assert forall|x: u32|
                    !(exists|j: int| 0 <= j < i + 1 && keys@[j] == x) implies #[trigger] entry_at(
                    self@,
                    x,
                ) == entry_at(old(self)@, x) by {
                    assert(x != key);
                    assert(!(exists|j: int| 0 <= j < i && keys@[j] == x));
                    assert(entry_at(before, x) == entry_at(old(self)@, x));
                }
            }
            i = i + 1;
        }
        proof {
            assert forall|x: u32| entry_at(self@, x) == entry_at(swept, x) by {
                if old(self).routes@.dom().contains(x) {
                    assert(keys@.contains(x));
                    let j = choose|j: int| 0 <= j < keys@.len() && keys@[j] == x;
                    assert(0 <= j < i && keys@[j] == x);
                } else {
                    assert(!keys@.contains(x));
                    assert(entry_at(self@, x) == entry_at(old(self)@, x));
                }
            }
            assert forall|x: u32| self@.contains_key(x) == swept.contains_key(x) by {
                assert(entry_at(self@, x) == entry_at(swept, x));
            }
            assert forall|x: u32| self@.contains_key(x) implies self@[x] == swept[x] by {
                assert(entry_at(self@, x) == entry_at(swept, x));
            }
            assert(self@ =~= swept);
        }
    }

    /// Takes note that the route to `destination` is broken, if there is one:
    /// it is invalidated, and takes the reported sequence number if that is
    /// greater than the one it then has.
    pub fn break_route(&mut self, destination: Ipv4Addr, seq_num: u32, now: i64, delete_period: i64)
        requires
            old(self).wf(),
            i64::MIN <= now + delete_period <= i64::MAX,
        ensures
            final(self).wf(),
            final(self).local == old(self).local,
            final(self)@ == after_break(old(self)@, destination, seq_num, now, delete_period),
    {
        self.invalidate(destination, now, delete_period);
        let ghost invalidated = self@;
        let key: u32 = destination.to_bits();
        match self.routes.remove(&key) {
            Some(mut r) => {
                if seq_num > r.dest_seq_num {
                    r.dest_seq_num = seq_num;
                }
                self.routes.insert(key, r);
                assert(self@ =~= after_break(
                    old(self)@,
                    destination,
                    seq_num,
                    now,
                    delete_period,
                ));
            },
            None => {
                assert(self@ =~= invalidated);
            },
        }
    }

    /// Whether some route of the table goes over the neighbour `hop`.
    pub fn uses_next_hop(&self, hop: Ipv4Addr) -> (found: bool)
        ensures
            found == depends_on(self@, hop),
    {
        let mut found: bool = false;
        for kv in it: self.routes.iter()
            invariant
                it.seq() == spec_hash_map_iter(&self.routes).remaining(),
                found <==> exists|i: int| 0 <= i < it.index() && it.seq()[i].1.next_hop == hop,
        {
            if kv.1.next_hop == hop {
                found = true;
            }
        }
        proof {
            let v = spec_hash_map_iter(&self.routes).remaining();
            if found {
                let i = choose|i: int| 0 <= i < v.len() && v[i].1.next_hop == hop;
                assert(self.routes@.contains_key(*v[i].0));
                assert(self@.contains_key(*v[i].0) && self@[*v[i].0].next_hop == hop);
            }
            if depends_on(self@, hop) {
                let k = choose|k: u32| #[trigger]
                    self@.contains_key(k) && self@[k].next_hop == hop;
                assert(self.routes@.contains_key(k));
                assert(v.contains((&k, &self.routes@[k])));
            }
        }
        found
    }
}

/// The sequence number of a node.
pub struct SequenceNumber {
    pub value: u32,
}

impl Default for SequenceNumber {
    fn default() -> (n: SequenceNumber)
        ensures
            n.value == 0,
    {
        SequenceNumber { value: 0 }
    }
}

impl SequenceNumber {
    /// The number as it stands.
    pub fn get(&self) -> (n: u32)
        ensures
            n == self.value,
    {
        self.value
    }

    /// Moves the number on by one.
    pub fn increment(&mut self)
        ensures
            final(self).value == next_seq_num(old(self).value),
    {
        self.value = self.value.wrapping_add(1);
    }

    /// Moves the number on by one and returns it.
    pub fn increment_then_get(&mut self) -> (n: u32)
        ensures
            final(self).value == next_seq_num(old(self).value),
            n == final(self).value,
    {
        self.value = self.value.wrapping_add(1);
        self.value
    }
}

/// The number that the `k`-th of a row of increments returns, when the row
/// starts at `start`.
pub open spec fn nth_increment(start: u32, k: nat) -> u32
    decreases k,
{
    if k == 0 {
        start
    } else {
        next_seq_num(nth_increment(start, (k - 1) as nat))
    }
}

/// Increments that follow one another return `start + 1`, `start + 2` and so
/// on, each number once and none left out, as long as the largest number is
/// not passed. Callers that exclude one another, as holders of `&mut` do, make
/// their calls in some such row.
pub proof fn lemma_increments_count_up(start: u32, n: nat)
    requires
        start + n <= u32::MAX,
    ensures
        forall|k: nat| k <= n ==> #[trigger] nth_increment(start, k) == start + k,
        forall|j: nat, k: nat|
            j <= n && k <= n && j != k ==> #[trigger] nth_increment(start, j)
                != #[trigger] nth_increment(start, k),
    decreases n,
{
    if n > 0 {
        lemma_increments_count_up(start, (n - 1) as nat);
        assert(nth_increment(start, n) == next_seq_num(nth_increment(start, (n - 1) as nat)));
    }
}

/// Whether a request was seen and is still remembered at the time `now`.
pub open spec fn is_remembered(seen: Map<(u32, u32), i64>, ip: u32, rreq_id: u32, now: i64) -> bool {
    seen.contains_key((ip, rreq_id)) && now < seen[(ip, rreq_id)]
}

/// What is remembered after a request was looked up at the time `now`: a
/// request that was not remembered is from then on, for the path discovery
/// time.
pub open spec fn after_seen_before(
    seen: Map<(u32, u32), i64>,
    ip: u32,
    rreq_id: u32,
    now: i64,
    path_discovery_time: i64,
) -> Map<(u32, u32), i64> {
    if is_remembered(seen, ip, rreq_id, now) {
        seen
    } else {
        seen.insert((ip, rreq_id), (now + path_discovery_time) as i64)
    }
}

/// What is remembered after the removal that was scheduled for a request went
/// off at the time `now`: the request is forgotten if its time is over.
pub open spec fn after_manage_rreq(
    seen: Map<(u32, u32), i64>,
    ip: u32,
    rreq_id: u32,
    now: i64,
) -> Map<(u32, u32), i64> {
    if seen.contains_key((ip, rreq_id)) && now >= seen[(ip, rreq_id)] {
        seen.remove((ip, rreq_id))
    } else {
        seen
    }
}

/// The route requests seen of late: for each originator the identifiers of
/// its requests, each with the time at which it is to be forgotten.
pub struct RreqDatabase {
    pub seen: HashMap<u32, HashMap<u32, i64>>,
}

impl View for RreqDatabase {
    type V = Map<(u32, u32), i64>;

    /// The time at which each pair of originator and identifier is forgotten.
    open spec fn view(&self) -> Map<(u32, u32), i64> {
        Map::new(
            |p: (u32, u32)| self.seen@.contains_key(p.0) && self.seen@[p.0]@.contains_key(p.1),
            |p: (u32, u32)| self.seen@[p.0]@[p.1],
        )
    }
}

impl RreqDatabase {
    /// No originator is kept without a request of its own.
    pub open spec fn wf(self) -> bool {
        forall|ip: u32| #[trigger]
            self.seen@.contains_key(ip) ==> exists|id: u32| self.seen@[ip]@.contains_key(id)
    }

    /// A map of originators that differs from a well-formed one at `key` alone,
    /// and holds a request there if it holds `key` at all, is well-formed.
    proof fn lemma_wf_but_at(before: RreqDatabase, after: RreqDatabase, key: u32)
        requires
            before.wf(),
            forall|ip: u32|
                ip != key && #[trigger] after.seen@.contains_key(ip) ==> before.seen@.contains_key(
                    ip,
                ) && after.seen@[ip] == before.seen@[ip],
            after.seen@.contains_key(key) ==> exists|id: u32| after.seen@[key]@.contains_key(id),
        ensures
            after.wf(),
    {
        assert forall|ip: u32| #[trigger] after.seen@.contains_key(ip) implies exists|id: u32|
            after.seen@[ip]@.contains_key(id) by {
            if ip != key {
                assert(before.seen@.contains_key(ip));
                let id = choose|id: u32| before.seen@[ip]@.contains_key(id);
                assert(after.seen@[ip]@.contains_key(id));
            }
        }
    }

    /// A database that remembers nothing yet.
    pub fn new() -> (db: RreqDatabase)
        ensures
            db.wf(),
            db@ == Map::<(u32, u32), i64>::empty(),
    {
        let db = RreqDatabase { seen: HashMap::new() };
        assert(db@ =~= Map::<(u32, u32), i64>::empty());
        db
    }

    /// Tells whether the request `rreq_id` of `ip` was seen before and is still
    /// remembered at the time `now`. If not, it is remembered from now on, for
    /// the path discovery time.
    pub fn seen_before(
        &mut self,
        ip: Ipv4Addr,
        rreq_id: u32,
        now: i64,
        path_discovery_time: i64,
    ) -> (seen: bool)
        requires
            old(self).wf(),
            i64::MIN <= now + path_discovery_time <= i64::MAX,
        ensures
            final(self).wf(),
            seen == is_remembered(old(self)@, ip.bits, rreq_id, now),
            final(self)@ == after_seen_before(
                old(self)@,
                ip.bits,
                rreq_id,
                now,
                path_discovery_time,
            ),
    {
        let key: u32 = ip.to_bits();
        let deadline: i64 = now + path_discovery_time;
        match self.seen.remove(&key) {
            Some(mut ids) => {
                let live: bool = match ids.get(&rreq_id) {
                    Some(d) => now < *d,
                    None => false,
                };
                if !live {
                    ids.insert(rreq_id, deadline);
                }
                assert(ids@.contains_key(rreq_id));
                self.seen.insert(key, ids);
                proof {
                    assert(self.seen@[key]@.contains_key(rreq_id));
                    RreqDatabase::lemma_wf_but_at(*old(self), *self, key);
                }
                assert(self@ =~= after_seen_before(
                    old(self)@,
                    key,
                    rreq_id,
                    now,
                    path_discovery_time,
                ));
                live
            },
            None => {
                let mut ids: HashMap<u32, i64> = HashMap::new();
                ids.insert(rreq_id, deadline);
                assert(ids@.contains_key(rreq_id));
                self.seen.insert(key, ids);
                proof {
                    assert(self.seen@[key]@.contains_key(rreq_id));
                    RreqDatabase::lemma_wf_but_at(*old(self), *self, key);
                }
                assert(self@ =~= old(self)@.insert((key, rreq_id), deadline));
                false
            },
        }
    }

    /// The removal that was scheduled when the request was first seen: it
    /// forgets the request if its time is over at `now`, and with its last
    /// request the originator. A removal that comes too early, or for a request
    /// that is not there, changes nothing.
    pub fn manage_rreq(&mut self, ip: Ipv4Addr, rreq_id: u32, now: i64)
        requires
            old(self).wf(),
        ensures
            final(self).wf(),
            final(self)@ == after_manage_rreq(old(self)@, ip.bits, rreq_id, now),
            !old(self)@.contains_key((ip.bits, rreq_id)) ==> final(self).seen@ == old(self).seen@,
    {
        let key: u32 = ip.to_bits();
        let over: bool = match self.seen.get(&key) {
            Some(ids) => match ids.get(&rreq_id) {
                Some(d) => now >= *d,
                None => false,
            },
            None => false,
        };
        if over {
            match self.seen.remove(&key) {
                Some(mut ids) => {
                    let ghost before = ids@;
                    ids.remove(&rreq_id);
                    assert(ids@ == before.remove(rreq_id));
                    if ids.len() > 0 {
                        proof {
                            assert(ids@.dom().len() > 0);
                            let id = ids@.dom().choose();
                            assert(ids@.contains_key(id));
                        }
                        self.seen.insert(key, ids);
                        assert(self.seen@[key]@.contains_key(ids@.dom().choose()));
                    } else {
                        assert(ids@.dom().len() == 0);
                        assert(ids@.dom() =~= Set::<u32>::empty()) by {
                            ids@.dom().lemma_len0_is_empty();
                        }
                    }
                    proof {
                        RreqDatabase::lemma_wf_but_at(*old(self), *self, key);
                    }
                    assert(self@ =~= old(self)@.remove((key, rreq_id)));
                },
                None => {},
            }
        }
    }

    /// Whether a request of the originator `ip` is kept.
    pub fn has_origin(&self, ip: Ipv4Addr) -> (found: bool)
        requires
            self.wf(),
        ensures
            found == exists|id: u32| self@.contains_key((ip.bits, id)),
    {
        let key: u32 = ip.to_bits();
        let found: bool = self.seen.contains_key(&key);
        proof {
            if found {
                let id = choose|id: u32| self.seen@[key]@.contains_key(id);
                assert(self@.contains_key((key, id)));
            }
        }
        found
    }
}

/// A request that is new to the node is reported as not seen when it is first
/// looked up, as seen at every later lookup before its path discovery time is
/// over, without any further change, and as not seen again once that time is
/// over.
pub proof fn lemma_seen_before_window(
    seen: Map<(u32, u32), i64>,
    ip: u32,
    rreq_id: u32,
    first: i64,
    second: i64,
    third: i64,
    path_discovery_time: i64,
)
    requires
        !is_remembered(seen, ip, rreq_id, first),
        first <= second < first + path_discovery_time <= third,
        first + path_discovery_time <= i64::MAX,
    ensures
        ({
            let one = after_seen_before(seen, ip, rreq_id, first, path_discovery_time);
            let two = after_seen_before(one, ip, rreq_id, second, path_discovery_time);
            &&& is_remembered(one, ip, rreq_id, second)
            &&& two == one
            &&& !is_remembered(two, ip, rreq_id, third)
            &&& !is_remembered(after_manage_rreq(two, ip, rreq_id, third), ip, rreq_id, third)
        }),
{
}

/// After a route was offered to the table, the table holds a route to its
/// destination: the one that was there, unchanged, where that one is to be
/// preferred, and else the offered one. This is so for every route but one to
/// the node's own address, which the table never takes.
pub proof fn lemma_lookup_after_set_route(
    table: Map<u32, RouteView>,
    local: Ipv4Addr,
    incoming: RouteView,
)
    requires
        incoming.dest_ip != local,
    ensures
        ({
            let key = incoming.dest_ip.bits;
            let after = after_set_route(table, local, incoming);
            &&& after.contains_key(key)
            &&& after[key] == (if table.contains_key(key) && prefers_existing(
                table[key],
                incoming,
            ) {
                table[key]
            } else {
                incoming
            })
            &&& forall|k: u32| k != key ==> after.contains_key(k) == table.contains_key(k)
            &&& forall|k: u32| k != key && table.contains_key(k) ==> after[k] == table[k]
        }),
{
}

/// After a valid route was used, it is still valid and lasts for the active
/// route timeout from then on.
pub proof fn lemma_used_keeps_alive(
    table: Map<u32, RouteView>,
    destination: Ipv4Addr,
    now: i64,
    active_route_timeout: i64,
)
    requires
        table.contains_key(destination.bits),
        table[destination.bits].valid,
        i64::MIN <= now + active_route_timeout <= i64::MAX,
    ensures
        ({
            let after = after_used(table, destination, now, active_route_timeout);
            &&& after.contains_key(destination.bits)
            &&& after[destination.bits].valid
            &&& after[destination.bits].lifetime == now + active_route_timeout
        }),
{
}

/// A route that was used is not taken for expired by a timer that goes off
/// before the active route timeout is over.
pub proof fn lemma_used_outlives_timer(
    table: Map<u32, RouteView>,
    destination: Ipv4Addr,
    now: i64,
    active_route_timeout: i64,
    later: i64,
    delete_period: i64,
)
    requires
        table.contains_key(destination.bits),
        table[destination.bits].valid,
        i64::MIN <= now + active_route_timeout <= i64::MAX,
        later < now + active_route_timeout,
    ensures
        ({
            let after = after_used(table, destination, now, active_route_timeout);
            after_expire(after, destination, later, delete_period) == after
        }),
{
}

/// When every timer goes off at once, each route fares as it does when its
/// own timer goes off.
pub proof fn lemma_expire_all_is_expire_each(
    table: Map<u32, RouteView>,
    destination: Ipv4Addr,
    now: i64,
    delete_period: i64,
)
    ensures
        entry_at(after_expire_all(table, now, delete_period), destination.bits) == entry_at(
            after_expire(table, destination, now, delete_period),
            destination.bits,
        ),
{
}

/// A table in which every route has at least one hop stays such a table
/// under every operation, as long as the routes that are offered to it have
/// at least one hop.
pub proof fn lemma_hops_stay_counted(
    table: Map<u32, RouteView>,
    local: Ipv4Addr,
    incoming: RouteView,
    other: Ipv4Addr,
    seq_num: u32,
    now: i64,
    span: i64,
)
    requires
        hops_counted(table),
        incoming.hop_count >= 1,
    ensures
        hops_counted(after_set_route(table, local, incoming)),
        hops_counted(after_put_route(table, local, incoming)),
        hops_counted(after_add_precursor(table, incoming.dest_ip, other)),
        hops_counted(after_used(table, other, now, span)),
        hops_counted(after_invalidate(table, other, now, span)),
        hops_counted(after_break(table, other, seq_num, now, span)),
        hops_counted(after_expire(table, other, now, span)),
        hops_counted(after_expire_all(table, now, span)),
{
    assert(hops_counted(after_invalidate(table, other, now, span)));
}

} // verus!

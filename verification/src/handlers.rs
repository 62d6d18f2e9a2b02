//! What a node does with a control message that it receives.

use vstd::prelude::*;
use crate::config::Config;
use crate::message::{AodvMessage, MessageView, RerrView, RERR, RREP, RREQ};
use crate::routing::{
    after_add_precursor, after_break, after_put_route, after_seen_before, after_set_route,
    depends_on, hops_counted, is_remembered, lemma_hops_stay_counted, next_seq_num, Route,
    RouteView, RoutingTable, RreqDatabase, SequenceNumber,
};
use vstd::std_specs::hash::*;
use vstd::std_specs::iter::IteratorSpec;
use crate::wire::Ipv4Addr;
use std::collections::HashSet;

verus! {

broadcast use vstd::std_specs::hash::group_hash_axioms;

/// A node: its settings and the state that its handlers read and change.
pub struct Node {
    pub config: Config,
    pub routing_table: RoutingTable,
    pub rreq_database: RreqDatabase,
    pub seq_num: SequenceNumber,
}

impl Node {
    /// The parts are well-formed and the routing table is that of the node's
    /// own address.
    pub open spec fn wf(self) -> bool {
        &&& self.config.wf()
        &&& self.routing_table.wf()
        &&& self.rreq_database.wf()
        &&& self.routing_table.local == self.config.current_ip
    }

    /// A node that has seen nothing yet.
    pub fn new(config: Config) -> (node: Node)
        requires
            config.wf(),
        ensures
            node.wf(),
            node.config == config,
            node.routing_table@ == Map::<u32, RouteView>::empty(),
            node.rreq_database@ == Map::<(u32, u32), i64>::empty(),
            node.seq_num.value == 0,
    {
        let routing_table = RoutingTable::new(config.current_ip);
        Node {
            config,
            routing_table,
            rreq_database: RreqDatabase::new(),
            seq_num: SequenceNumber::default(),
        }
    }
}

/// A number of milliseconds as a message carries it: what is below the
/// smallest or above the largest number of the field becomes that number.
pub open spec fn clamp_u32(x: int) -> u32 {
    if x < 0 {
        0
    } else if x > u32::MAX {
        u32::MAX
    } else {
        x as u32
    }
}

fn clamp_to_u32(x: i128) -> (out: u32)
    ensures
        out == clamp_u32(x as int),
{
    if x < 0 {
        0
    } else if x > 0xffff_ffff {
        0xffff_ffff
    } else {
        x as u32
    }
}

/// The hello message of a node: a reply about the node itself, which lasts
/// for as many hello intervals as may be lost, and one more.
pub open spec fn hello_of(config: Config, seq_num: u32) -> RREP {
    RREP {
        r: false,
        a: false,
        prefix_size: 0,
        hop_count: 0,
        dest_ip: config.current_ip,
        dest_seq_num: seq_num,
        orig_ip: config.current_ip,
        lifetime: clamp_u32((1 + config.ALLOWED_HELLO_LOSS) * config.HELLO_INTERVAL),
    }
}

impl Node {
    /// The hello message that the node sends to everyone, with the address to
    /// send it to.
    pub fn hello(&self) -> (out: (Ipv4Addr, AodvMessage))
        ensures
            out.0 == self.config.broadcast_address,
            out.1@ == MessageView::Hello(hello_of(self.config, self.seq_num.value)),
    {
        let rounds: i128 = 1 + self.config.ALLOWED_HELLO_LOSS as i128;
        let interval: i128 = self.config.HELLO_INTERVAL as i128;
        assert(-0x2_0000_0000 * 0x8000_0000_0000_0000 <= rounds * interval <= 0x2_0000_0000
            * 0x8000_0000_0000_0000) by (nonlinear_arith)
            requires
                0 <= rounds <= 0x2_0000_0000,
                -0x8000_0000_0000_0000 <= interval <= 0x8000_0000_0000_0000,
        ;
        let rrep = RREP {
            r: false,
            a: false,
            prefix_size: 0,
            hop_count: 0,
            dest_ip: self.config.current_ip,
            dest_seq_num: self.seq_num.get(),
            orig_ip: self.config.current_ip,
            lifetime: clamp_to_u32(rounds * interval),
        };
        (self.config.broadcast_address, AodvMessage::Hello(rrep))
    }
}

/// The route by which a neighbour is first known: one hop, nothing claimed of
/// its freshness.
pub open spec fn neighbor_route(
    neighbor: Ipv4Addr,
    interface: Seq<char>,
    seq_num: u32,
    hop_count: u8,
) -> RouteView {
    RouteView {
        dest_ip: neighbor,
        dest_seq_num: seq_num,
        valid_dest_seq_num: false,
        valid: false,
        interface,
        hop_count,
        next_hop: neighbor,
        precursors: Set::empty(),
        lifetime: 0,
    }
}

fn make_neighbor_route(neighbor: Ipv4Addr, config: &Config, seq_num: u32, hop_count: u8) -> (r:
    Route)
    ensures
        r@ == neighbor_route(neighbor, config.interface@, seq_num, hop_count),
{
    Route {
        dest_ip: neighbor,
        dest_seq_num: seq_num,
        valid_dest_seq_num: false,
        valid: false,
        interface: config.interface.clone(),
        hop_count,
        next_hop: neighbor,
        precursors: HashSet::new(),
        lifetime: 0,
    }
}

/// The lifetime of the reverse route that a request leaves behind after
/// `hop_count` hops.
pub open spec fn minimal_lifetime(config: Config, hop_count: u8) -> int {
    2 * config.NET_TRAVERSAL_TIME - 2 * hop_count * config.NODE_TRAVERSAL_TIME
}

/// The route back to the originator of a request that came over `neighbor`,
/// given the route to the originator that the table holds, if any. `rreq` is
/// the request with this hop counted.
pub open spec fn reverse_route(
    existing: Option<RouteView>,
    rreq: RREQ,
    neighbor: Ipv4Addr,
    config: Config,
) -> RouteView {
    let minimal = minimal_lifetime(config, rreq.hop_count) as i64;
    match existing {
        None => RouteView {
            dest_ip: rreq.orig_ip,
            dest_seq_num: rreq.orig_seq_num,
            valid_dest_seq_num: true,
            valid: true,
            interface: config.interface@,
            hop_count: rreq.hop_count,
            next_hop: neighbor,
            precursors: Set::empty(),
            lifetime: minimal,
        },
        Some(e) => RouteView {
            dest_seq_num: if !e.valid_dest_seq_num || rreq.orig_seq_num > e.dest_seq_num {
                rreq.orig_seq_num
            } else {
                e.dest_seq_num
            },
            valid_dest_seq_num: true,
            next_hop: neighbor,
            hop_count: rreq.hop_count,
            lifetime: if e.lifetime < minimal {
                minimal
            } else {
                e.lifetime
            },
            ..e
        },
    }
}

/// The entry of a table for an address, if it has one.
pub open spec fn entry_of(table: Map<u32, RouteView>, ip: Ipv4Addr) -> Option<RouteView> {
    if table.contains_key(ip.bits) {
        Some(table[ip.bits])
    } else {
        None
    }
}

/// Whether the node answers a request for a destination other than itself from
/// its own table: it has a valid route with a known sequence number that is
/// not older than the one asked for, and the request does not insist on the
/// destination.
pub open spec fn answers_from_table(table: Map<u32, RouteView>, rreq: RREQ) -> bool {
    &&& table.contains_key(rreq.dest_ip.bits)
    &&& table[rreq.dest_ip.bits].valid
    &&& table[rreq.dest_ip.bits].valid_dest_seq_num
    &&& table[rreq.dest_ip.bits].dest_seq_num >= rreq.dest_seq_num
    &&& !rreq.d
}

/// What the answer to a request leaves behind and says.
pub struct ReplyOutcome {
    pub routes: Map<u32, RouteView>,
    pub seq_num: u32,
    pub rrep: RREP,
}

/// The answer of a node to a request that it answers, as the destination or
/// from its table.
pub open spec fn reply_outcome(
    routes: Map<u32, RouteView>,
    seq_num: u32,
    rreq: RREQ,
    config: Config,
    now: i64,
) -> ReplyOutcome {
    if rreq.dest_ip == config.current_ip {
        let own = if rreq.dest_seq_num == seq_num + 1 {
            next_seq_num(seq_num)
        } else {
            seq_num
        };
        ReplyOutcome {
            routes,
            seq_num: own,
            rrep: RREP {
                r: false,
                a: false,
                prefix_size: 0,
                hop_count: 0,
                dest_ip: rreq.dest_ip,
                dest_seq_num: own,
                orig_ip: rreq.orig_ip,
                lifetime: clamp_u32(config.MY_ROUTE_TIMEOUT as int),
            },
        }
    } else {
        let forward = routes[rreq.dest_ip.bits];
        ReplyOutcome {
            routes: after_add_precursor(routes, rreq.dest_ip, rreq.orig_ip),
            seq_num,
            rrep: RREP {
                r: false,
                a: false,
                prefix_size: 0,
                hop_count: forward.hop_count,
                dest_ip: rreq.dest_ip,
                dest_seq_num: forward.dest_seq_num,
                orig_ip: rreq.orig_ip,
                lifetime: clamp_u32(forward.lifetime - now),
            },
        }
    }
}

/// Whether a node answers a request itself.
pub open spec fn answers(routes: Map<u32, RouteView>, rreq: RREQ, config: Config) -> bool {
    rreq.dest_ip == config.current_ip || answers_from_table(routes, rreq)
}

impl RREP {
    /// Writes the answer to a request that the node answers, and keeps the
    /// books for it: as the destination it moves its own sequence number on
    /// where the request asks for the next one; from its table it makes the
    /// originator a precursor of the route it answers with.
    pub fn create_rrep(rreq: &RREQ, node: &mut Node, now: i64) -> (rrep: RREP)
        requires
            old(node).wf(),
            answers(old(node).routing_table@, *rreq, old(node).config),
        ensures
            final(node).wf(),
            final(node).config == old(node).config,
            final(node).rreq_database == old(node).rreq_database,
            ({
                let outcome = reply_outcome(
                    old(node).routing_table@,
                    old(node).seq_num.value,
                    *rreq,
                    old(node).config,
                    now,
                );
                &&& rrep == outcome.rrep
                &&& final(node).routing_table@ == outcome.routes
                &&& final(node).seq_num.value == outcome.seq_num
            }),
    {
        let mut rrep = RREP {
            r: false,
            a: false,
            prefix_size: 0,
            hop_count: 0,
            dest_ip: rreq.dest_ip,
            dest_seq_num: 0,
            orig_ip: rreq.orig_ip,
            lifetime: 0,
        };
        if node.config.current_ip == rreq.dest_ip {
            let current: u32 = node.seq_num.get();
            let own: u32 = if current < u32::MAX && rreq.dest_seq_num == current + 1 {
                node.seq_num.increment_then_get()
            } else {
                current
            };
            rrep.dest_seq_num = own;
            rrep.lifetime = clamp_to_u32(node.config.MY_ROUTE_TIMEOUT as i128);
        } else {
            match node.routing_table.lookup(rreq.dest_ip) {
                Some(forward) => {
                    rrep.dest_seq_num = forward.dest_seq_num;
                    rrep.hop_count = forward.hop_count;
                    rrep.lifetime = clamp_to_u32(forward.lifetime as i128 - now as i128);
                },
                None => {},
            }
            node.routing_table.add_precursor(rreq.dest_ip, rreq.orig_ip);
        }
        rrep
    }

    /// Decides whether the node answers a request that came over
    /// `previous_hop`, and if so answers it: the reply goes back to that
    /// neighbour. Where the node does not answer, nothing is changed.
    pub fn generate_rrep(rreq: &RREQ, previous_hop: Ipv4Addr, node: &mut Node, now: i64) -> (out:
        Option<(Ipv4Addr, AodvMessage)>)
        requires
            old(node).wf(),
        ensures
            final(node).wf(),
            final(node).config == old(node).config,
            final(node).rreq_database == old(node).rreq_database,
            out is Some == answers(old(node).routing_table@, *rreq, old(node).config),
            out is None ==> final(node).routing_table@ == old(node).routing_table@
                && final(node).seq_num == old(node).seq_num,
            out is Some ==> ({
                let outcome = reply_outcome(
                    old(node).routing_table@,
                    old(node).seq_num.value,
                    *rreq,
                    old(node).config,
                    now,
                );
                &&& out->Some_0.0 == previous_hop
                &&& out->Some_0.1@ == MessageView::Rrep(outcome.rrep)
                &&& final(node).routing_table@ == outcome.routes
                &&& final(node).seq_num.value == outcome.seq_num
            }),
    {
        let mut reply: bool = rreq.dest_ip == node.config.current_ip;
        if !reply {
            match node.routing_table.lookup(rreq.dest_ip) {
                Some(r) => {
                    reply = r.valid && r.valid_dest_seq_num && r.dest_seq_num >= rreq.dest_seq_num
                        && !rreq.d;
                },
                None => {},
            }
        }
        if reply {
            let rrep: RREP = RREP::create_rrep(rreq, node, now);
            Some((previous_hop, AodvMessage::Rrep(rrep)))
        } else {
            None
        }
    }
}

/// What a request leaves behind and brings about.
pub struct RreqOutcome {
    pub rreq: RREQ,
    pub routes: Map<u32, RouteView>,
    pub seen: Map<(u32, u32), i64>,
    pub seq_num: u32,
    pub send: Option<(Ipv4Addr, MessageView)>,
}

/// What the receipt of `rreq` from the neighbour `neighbor` at the time `now`
/// leaves behind and brings about.
///
/// The neighbour is made known. A request that is remembered is dropped. One
/// that is new is remembered; if its hop count is at its largest it can go no
/// further and is dropped too. Else this hop is counted, the route back to the
/// originator is made or brought up to date, and the request is answered to
/// the neighbour, or sent on to everyone with this hop counted.
pub open spec fn rreq_outcome(
    routes: Map<u32, RouteView>,
    seen: Map<(u32, u32), i64>,
    seq_num: u32,
    rreq: RREQ,
    neighbor: Ipv4Addr,
    config: Config,
    now: i64,
) -> RreqOutcome {
    let local = config.current_ip;
    let known = after_set_route(routes, local, neighbor_route(neighbor, config.interface@, 0, 1));
    if is_remembered(seen, rreq.orig_ip.bits, rreq.rreq_id, now) {
        RreqOutcome { rreq, routes: known, seen, seq_num, send: None }
    } else {
        let noted = after_seen_before(
            seen,
            rreq.orig_ip.bits,
            rreq.rreq_id,
            now,
            config.PATH_DISCOVERY_TIME,
        );
        if rreq.hop_count == u8::MAX {
            RreqOutcome { rreq, routes: known, seen: noted, seq_num, send: None }
        } else {
            let counted = RREQ { hop_count: (rreq.hop_count + 1) as u8, ..rreq };
            let back = after_put_route(
                known,
                local,
                reverse_route(entry_of(known, rreq.orig_ip), counted, neighbor, config),
            );
            if answers(back, counted, config) {
                let outcome = reply_outcome(back, seq_num, counted, config, now);
                RreqOutcome {
                    rreq: counted,
                    routes: outcome.routes,
                    seen: noted,
                    seq_num: outcome.seq_num,
                    send: Some((neighbor, MessageView::Rrep(outcome.rrep))),
                }
            } else {
                RreqOutcome {
                    rreq: counted,
                    routes: back,
                    seen: noted,
                    seq_num,
                    send: Some((config.broadcast_address, MessageView::Rreq(counted))),
                }
            }
        }
    }
}

/// The address and the view of a message to send, if there is one.
pub open spec fn sent(out: Option<(Ipv4Addr, AodvMessage)>) -> Option<(Ipv4Addr, MessageView)> {
    match out {
        Some((to, msg)) => Some((to, msg@)),
        None => None,
    }
}

impl RREQ {
    /// Handles a request that came from the neighbour `addr` at the time
    /// `now`, and returns what is to be sent, with the address to send it to.
    pub fn handle_message(&mut self, addr: Ipv4Addr, node: &mut Node, now: i64) -> (out: Option<
        (Ipv4Addr, AodvMessage),
    >)
        requires
            old(node).wf(),
            old(node).config.in_time(now),
        ensures
            final(node).wf(),
            final(node).config == old(node).config,
            ({
                let outcome = rreq_outcome(
                    old(node).routing_table@,
                    old(node).rreq_database@,
                    old(node).seq_num.value,
                    *old(self),
                    addr,
                    old(node).config,
                    now,
                );
                &&& *final(self) == outcome.rreq
                &&& final(node).routing_table@ == outcome.routes
                &&& final(node).rreq_database@ == outcome.seen
                &&& final(node).seq_num.value == outcome.seq_num
                &&& sent(out) == outcome.send
            }),
    {
        let seed: Route = make_neighbor_route(addr, &node.config, 0, 1);
        node.routing_table.set_route(seed);
        if node.rreq_database.seen_before(
            self.orig_ip,
            self.rreq_id,
            now,
            node.config.PATH_DISCOVERY_TIME,
        ) {
            return None;
        }
        if self.hop_count == u8::MAX {
            return None;
        }
        self.hop_count = self.hop_count + 1;
        let hops: i128 = 2 * (self.hop_count as i128);
        let per_hop: i128 = node.config.NODE_TRAVERSAL_TIME as i128;
        proof {
            let n = per_hop as int;
            let h = hops as int;
            assert(n >= 0 ==> 0 <= h * n <= 510 * n) by (nonlinear_arith)
                requires
                    0 <= h <= 510,
            ;
            assert(n < 0 ==> 510 * n <= h * n <= 0) by (nonlinear_arith)
                requires
                    0 <= h <= 510,
            ;
            assert(2 * self.hop_count * n == h * n) by (nonlinear_arith)
                requires
                    h == 2 * self.hop_count,
            ;
        }
        let minimal: i64 = (2 * (node.config.NET_TRAVERSAL_TIME as i128) - hops * per_hop) as i64;
        let back: Route = match node.routing_table.lookup(self.orig_ip) {
            None => Route {
                dest_ip: self.orig_ip,
                dest_seq_num: self.orig_seq_num,
                valid_dest_seq_num: true,
                valid: true,
                interface: node.config.interface.clone(),
                hop_count: self.hop_count,
                next_hop: addr,
                precursors: HashSet::new(),
                lifetime: minimal,
            },
            Some(mut r) => {
                if !r.valid_dest_seq_num || self.orig_seq_num > r.dest_seq_num {
                    r.dest_seq_num = self.orig_seq_num;
                }
                r.valid_dest_seq_num = true;
                r.next_hop = addr;
                r.hop_count = self.hop_count;
                if r.lifetime < minimal {
                    r.lifetime = minimal;
                }
                r
            },
        };
        node.routing_table.put_route(back);
        match RREP::generate_rrep(self, addr, node, now) {
            Some(reply) => Some(reply),
            None => Some((node.config.broadcast_address, AodvMessage::Rreq(*self))),
        }
    }
}

/// Whether a reply brings the route to its destination up to date: there is
/// no such route yet, or its sequence number is not known, or the reply has a
/// newer one, or the same one while the route is invalid or longer than the
/// path of the reply. `rrep` is the reply with this hop counted.
pub open spec fn forward_updated(existing: Option<RouteView>, rrep: RREP) -> bool {
    match existing {
        None => true,
        Some(e) => !e.valid_dest_seq_num || rrep.dest_seq_num > e.dest_seq_num || (
        rrep.dest_seq_num == e.dest_seq_num && !e.valid) || (rrep.dest_seq_num == e.dest_seq_num
            && rrep.hop_count < e.hop_count),
    }
}

/// The route to the destination of a reply that came over `neighbor` at the
/// time `now`, where the reply brings it up to date. `rrep` is the reply with
/// this hop counted.
pub open spec fn forward_route(
    existing: Option<RouteView>,
    rrep: RREP,
    neighbor: Ipv4Addr,
    config: Config,
    now: i64,
) -> RouteView {
    RouteView {
        dest_ip: rrep.dest_ip,
        dest_seq_num: rrep.dest_seq_num,
        valid_dest_seq_num: true,
        valid: true,
        interface: match existing {
            Some(e) => e.interface,
            None => config.interface@,
        },
        hop_count: rrep.hop_count,
        next_hop: neighbor,
        precursors: match existing {
            Some(e) => e.precursors,
            None => Set::empty(),
        },
        lifetime: (now + rrep.lifetime) as i64,
    }
}

/// What a reply leaves behind and brings about.
pub struct RrepOutcome {
    pub rrep: RREP,
    pub routes: Map<u32, RouteView>,
    pub send: Option<(Ipv4Addr, MessageView)>,
}

/// What the receipt of `rrep` from the neighbour `neighbor` at the time `now`
/// leaves behind and brings about.
///
/// A neighbour that is new is made known. A reply whose hop count is at its
/// largest can go no further and is dropped. Else this hop is counted and the
/// route to the destination is made or, where the reply says more than the
/// table, brought up to date. A hello message ends here. Another reply that
/// changed the route, at a node that did not ask for it, goes on towards the
/// originator, if a route there is known, and the destination becomes a
/// precursor of the route to it.
pub open spec fn rrep_outcome(
    routes: Map<u32, RouteView>,
    rrep: RREP,
    neighbor: Ipv4Addr,
    config: Config,
    now: i64,
) -> RrepOutcome {
    let local = config.current_ip;
    let is_hello = rrep.dest_ip == rrep.orig_ip && neighbor == config.broadcast_address;
    let known = if routes.contains_key(neighbor.bits) {
        routes
    } else {
        after_set_route(
            routes,
            local,
            neighbor_route(neighbor, config.interface@, rrep.dest_seq_num, 1),
        )
    };
    if rrep.hop_count == u8::MAX {
        RrepOutcome { rrep, routes: known, send: None }
    } else {
        let counted = RREP { hop_count: (rrep.hop_count + 1) as u8, ..rrep };
        let existing = entry_of(known, rrep.dest_ip);
        let updated = forward_updated(existing, counted);
        let forward = if updated {
            after_put_route(known, local, forward_route(existing, counted, neighbor, config, now))
        } else {
            known
        };
        if is_hello || local == rrep.orig_ip || !updated || !forward.contains_key(
            rrep.orig_ip.bits,
        ) {
            RrepOutcome { rrep: counted, routes: forward, send: None }
        } else {
            RrepOutcome {
                rrep: counted,
                routes: after_add_precursor(forward, rrep.dest_ip, rrep.dest_ip),
                send: Some((forward[rrep.orig_ip.bits].next_hop, MessageView::Rrep(counted))),
            }
        }
    }
}

impl RREP {
    /// Handles a reply that came from the neighbour `addr` at the time `now`,
    /// and returns what is to be sent, with the address to send it to.
    pub fn handle_message(&mut self, addr: Ipv4Addr, node: &mut Node, now: i64) -> (out: Option<
        (Ipv4Addr, AodvMessage),
    >)
        requires
            old(node).wf(),
            old(node).config.in_time(now),
        ensures
            final(node).wf(),
            final(node).config == old(node).config,
            final(node).rreq_database == old(node).rreq_database,
            final(node).seq_num == old(node).seq_num,
            ({
                let outcome = rrep_outcome(
                    old(node).routing_table@,
                    *old(self),
                    addr,
                    old(node).config,
                    now,
                );
                &&& *final(self) == outcome.rrep
                &&& final(node).routing_table@ == outcome.routes
                &&& sent(out) == outcome.send
            }),
    {
        let is_hello: bool = self.dest_ip == self.orig_ip && addr == node.config.broadcast_address;
        if !node.routing_table.contains(addr) {
            let seed: Route = make_neighbor_route(addr, &node.config, self.dest_seq_num, 1);
            node.routing_table.set_route(seed);
        }
        if self.hop_count == u8::MAX {
            return None;
        }
        self.hop_count = self.hop_count + 1;
        let lifetime: i64 = now + self.lifetime as i64;
        let mut updated: bool = false;
        match node.routing_table.lookup(self.dest_ip) {
            None => {
                updated = true;
                node.routing_table.put_route(
                    Route {
                        dest_ip: self.dest_ip,
                        dest_seq_num: self.dest_seq_num,
                        valid_dest_seq_num: true,
                        valid: true,
                        interface: node.config.interface.clone(),
                        hop_count: self.hop_count,
                        next_hop: addr,
                        precursors: HashSet::new(),
                        lifetime,
                    },
                );
            },
            Some(mut r) => {
                if !r.valid_dest_seq_num || self.dest_seq_num > r.dest_seq_num || (
                self.dest_seq_num == r.dest_seq_num && !r.valid) || (self.dest_seq_num
                    == r.dest_seq_num && self.hop_count < r.hop_count) {
                    updated = true;
                    r.dest_ip = self.dest_ip;
                    r.valid = true;
                    r.valid_dest_seq_num = true;
                    r.next_hop = addr;
                    r.hop_count = self.hop_count;
                    r.lifetime = lifetime;
                    r.dest_seq_num = self.dest_seq_num;
                    node.routing_table.put_route(r);
                }
            },
        }
        if is_hello {
            return None;
        }
        if node.config.current_ip != self.orig_ip && updated {
            match node.routing_table.lookup(self.orig_ip) {
                Some(orig_route) => {
                    node.routing_table.add_precursor(self.dest_ip, self.dest_ip);
                    return Some((orig_route.next_hop, AodvMessage::Rrep(*self)));
                },
                None => {
                    return None;
                },
            }
        }
        None
    }
}

/// Whether `a` comes before `b` where unreachable destinations are put in
/// order: by address, then by sequence number.
pub open spec fn pair_before(a: (Ipv4Addr, u32), b: (Ipv4Addr, u32)) -> bool {
    a.0.bits < b.0.bits || (a.0.bits == b.0.bits && a.1 < b.1)
}

/// An ordered list with `p` put in its place, unless it is there already.
pub open spec fn with_pair(list: Seq<(Ipv4Addr, u32)>, p: (Ipv4Addr, u32)) -> Seq<(Ipv4Addr, u32)>
    decreases list.len(),
{
    if list.len() == 0 {
        seq![p]
    } else if list.last() == p {
        list
    } else if pair_before(list.last(), p) {
        list.push(p)
    } else {
        with_pair(list.drop_last(), p).push(list.last())
    }
}

/// The members of `list` in order, each of them once.
pub open spec fn sorted_pairs(list: Seq<(Ipv4Addr, u32)>) -> Seq<(Ipv4Addr, u32)>
    decreases list.len(),
{
    if list.len() == 0 {
        Seq::empty()
    } else {
        with_pair(sorted_pairs(list.drop_last()), list.last())
    }
}

/// The members of `list` whose address is the next hop of some route, as
/// they stand in `list`.
pub open spec fn retained_pairs(list: Seq<(Ipv4Addr, u32)>, routes: Map<u32, RouteView>) -> Seq<
    (Ipv4Addr, u32),
>
    decreases list.len(),
{
    if list.len() == 0 {
        Seq::empty()
    } else if depends_on(routes, list.last().0) {
        retained_pairs(list.drop_last(), routes).push(list.last())
    } else {
        retained_pairs(list.drop_last(), routes)
    }
}

/// The table after each route to a member of `pairs` was reported broken, one
/// after the other.
pub open spec fn after_breaks(
    routes: Map<u32, RouteView>,
    pairs: Seq<(Ipv4Addr, u32)>,
    now: i64,
    delete_period: i64,
) -> Map<u32, RouteView>
    decreases pairs.len(),
{
    if pairs.len() == 0 {
        routes
    } else {
        after_break(
            after_breaks(routes, pairs.drop_last(), now, delete_period),
            pairs.last().0,
            pairs.last().1,
            now,
            delete_period,
        )
    }
}

/// The precursors of the route to `destination`, none where there is no route.
pub open spec fn precursors_at(routes: Map<u32, RouteView>, destination: Ipv4Addr) -> Set<u32> {
    if routes.contains_key(destination.bits) {
        routes[destination.bits].precursors
    } else {
        Set::empty()
    }
}

/// The precursors of the routes to the members of `pairs`, all together.
pub open spec fn precursors_of(routes: Map<u32, RouteView>, pairs: Seq<(Ipv4Addr, u32)>) -> Set<u32>
    decreases pairs.len(),
{
    if pairs.len() == 0 {
        Set::empty()
    } else {
        precursors_of(routes, pairs.drop_last()).union(precursors_at(routes, pairs.last().0))
    }
}

/// Whether each member of the list comes before all that follow it, so that
/// none stands in it twice.
pub open spec fn strictly_sorted(list: Seq<(Ipv4Addr, u32)>) -> bool {
    forall|i: int, j: int| 0 <= i < j < list.len() ==> pair_before(#[trigger] list[i], #[trigger] list[j])
}

/// An ordered list into which a pair was put is ordered, and holds the pair
/// besides what it held.
pub proof fn lemma_with_pair_sorted(list: Seq<(Ipv4Addr, u32)>, p: (Ipv4Addr, u32))
    requires
        strictly_sorted(list),
    ensures
        strictly_sorted(with_pair(list, p)),
        forall|q: (Ipv4Addr, u32)| #[trigger]
            with_pair(list, p).contains(q) <==> (list.contains(q) || q == p),
    decreases list.len(),
{
    let r = with_pair(list, p);
    let n = list.len() as int;
    if n == 0 {
        assert(r =~= seq![p]);
        assert forall|q: (Ipv4Addr, u32)| #[trigger]
            r.contains(q) <==> (list.contains(q) || q == p) by {
            if q == p {
                assert(r[0] == p);
            }
        }
    } else if list.last() == p {
        assert forall|q: (Ipv4Addr, u32)| #[trigger]
            r.contains(q) <==> (list.contains(q) || q == p) by {
            if q == p {
                assert(list[n - 1] == p);
            }
        }
    } else if pair_before(list.last(), p) {
        assert(r == list.push(p));
        assert forall|i: int, j: int| 0 <= i < j < r.len() implies pair_before(
            #[trigger] r[i],
            #[trigger] r[j],
        ) by {
            if j == n {
                if i < n - 1 {
                    assert(pair_before(list[i], list[n - 1]));
                }
            } else {
                assert(pair_before(list[i], list[j]));
            }
        }
        assert forall|q: (Ipv4Addr, u32)| #[trigger]
            r.contains(q) <==> (list.contains(q) || q == p) by {
            if r.contains(q) {
                let i = choose|i: int| 0 <= i < r.len() && r[i] == q;
                if i < n {
                    assert(list[i] == q);
                }
            }
            if list.contains(q) {
                let i = choose|i: int| 0 <= i < list.len() && list[i] == q;
                assert(r[i] == q);
            }
            if q == p {
                assert(r[n] == p);
            }
        }
    } else {
        let d = list.drop_last();
        let last = list.last();
        assert forall|i: int, j: int| 0 <= i < j < d.len() implies pair_before(
            #[trigger] d[i],
            #[trigger] d[j],
        ) by {
            assert(pair_before(list[i], list[j]));
        }
        lemma_with_pair_sorted(d, p);
        let rd = with_pair(d, p);
        assert(r == rd.push(last));
        assert forall|i: int| 0 <= i < rd.len() implies pair_before(#[trigger] rd[i], last) by {
            assert(rd.contains(rd[i]));
            if rd[i] != p {
                assert(d.contains(rd[i]));
                let k = choose|k: int| 0 <= k < d.len() && d[k] == rd[i];
                assert(pair_before(list[k], list[n - 1]));
            }
        }
        assert forall|i: int, j: int| 0 <= i < j < r.len() implies pair_before(
            #[trigger] r[i],
            #[trigger] r[j],
        ) by {
            if j < rd.len() {
                assert(pair_before(rd[i], rd[j]));
            }
        }
        assert forall|q: (Ipv4Addr, u32)| #[trigger]
            r.contains(q) <==> (list.contains(q) || q == p) by {
            if r.contains(q) {
                let i = choose|i: int| 0 <= i < r.len() && r[i] == q;
                if i < rd.len() {
                    assert(rd.contains(q));
                    if q != p {
                        let k = choose|k: int| 0 <= k < d.len() && d[k] == q;
                        assert(list[k] == q);
                    }
                } else {
                    assert(list[n - 1] == q);
                }
            }
            if list.contains(q) {
                let k = choose|k: int| 0 <= k < list.len() && list[k] == q;
                if k < n - 1 {
                    assert(d[k] == q);
                    assert(d.contains(q));
                    assert(rd.contains(q));
                    let i = choose|i: int| 0 <= i < rd.len() && rd[i] == q;
                    assert(r[i] == q);
                } else {
                    assert(r[rd.len() as int] == q);
                }
            }
            if q == p {
                assert(rd.contains(p));
                let i = choose|i: int| 0 <= i < rd.len() && rd[i] == p;
                assert(r[i] == p);
            }
        }
    }
}

/// The list that `sorted_pairs` makes of a list is ordered, with no member
/// twice, and holds what the list holds.
pub proof fn lemma_sorted_pairs(list: Seq<(Ipv4Addr, u32)>)
    ensures
        strictly_sorted(sorted_pairs(list)),
        forall|q: (Ipv4Addr, u32)| #[trigger] sorted_pairs(list).contains(q) <==> list.contains(q),
    decreases list.len(),
{
    let n = list.len() as int;
    if n > 0 {
        let d = list.drop_last();
        lemma_sorted_pairs(d);
        lemma_with_pair_sorted(sorted_pairs(d), list.last());
        let r = sorted_pairs(list);
        assert forall|q: (Ipv4Addr, u32)| #[trigger] r.contains(q) <==> list.contains(q) by {
            if r.contains(q) && q != list.last() {
                assert(sorted_pairs(d).contains(q));
                assert(d.contains(q));
                let k = choose|k: int| 0 <= k < d.len() && d[k] == q;
                assert(list[k] == q);
            }
            if q == list.last() {
                assert(list[n - 1] == q);
            }
            if list.contains(q) {
                let k = choose|k: int| 0 <= k < list.len() && list[k] == q;
                if k < n - 1 {
                    assert(d[k] == q);
                    assert(d.contains(q));
                }
            }
        }
    }
}

/// What is kept of a list of unreachable destinations are its members over
/// whose address a route goes.
pub proof fn lemma_retained_pairs(list: Seq<(Ipv4Addr, u32)>, routes: Map<u32, RouteView>)
    ensures
        forall|q: (Ipv4Addr, u32)| #[trigger]
            retained_pairs(list, routes).contains(q) <==> (list.contains(q) && depends_on(
                routes,
                q.0,
            )),
    decreases list.len(),
{
    let n = list.len() as int;
    if n > 0 {
        let d = list.drop_last();
        let last = list.last();
        lemma_retained_pairs(d, routes);
        let rd = retained_pairs(d, routes);
        let r = retained_pairs(list, routes);
        assert forall|q: (Ipv4Addr, u32)| #[trigger]
            r.contains(q) <==> (list.contains(q) && depends_on(routes, q.0)) by {
            if r.contains(q) {
                let i = choose|i: int| 0 <= i < r.len() && r[i] == q;
                if i < rd.len() {
                    assert(rd[i] == q);
                    assert(rd.contains(q));
                    assert(d.contains(q));
                    let k = choose|k: int| 0 <= k < d.len() && d[k] == q;
                    assert(list[k] == q);
                } else {
                    assert(list[n - 1] == q);
                }
            }
            if list.contains(q) && depends_on(routes, q.0) {
                let k = choose|k: int| 0 <= k < list.len() && list[k] == q;
                if k < n - 1 {
                    assert(d[k] == q);
                    assert(d.contains(q));
                    assert(rd.contains(q));
                    let i = choose|i: int| 0 <= i < rd.len() && rd[i] == q;
                    assert(r[i] == q);
                } else {
                    assert(r[rd.len() as int] == q);
                }
            }
        }
    }
}

/// The list of an error message that is passed on is in order, names nothing
/// twice, and names what the message that came in names of the destinations
/// over whose address a route of the node goes.
pub proof fn lemma_passed_on_list(list: Seq<(Ipv4Addr, u32)>, routes: Map<u32, RouteView>)
    ensures
        strictly_sorted(sorted_pairs(retained_pairs(list, routes))),
        forall|q: (Ipv4Addr, u32)| #[trigger]
            sorted_pairs(retained_pairs(list, routes)).contains(q) <==> (list.contains(q)
                && depends_on(routes, q.0)),
{
    lemma_retained_pairs(list, routes);
    lemma_sorted_pairs(retained_pairs(list, routes));
}

/// Where `p` goes in an ordered list: behind everything that does not come
/// after it.
proof fn lemma_with_pair_at(list: Seq<(Ipv4Addr, u32)>, p: (Ipv4Addr, u32), at: int)
    requires
        0 <= at <= list.len(),
        forall|j: int| at <= j < list.len() ==> pair_before(p, #[trigger] list[j]),
        at > 0 ==> !pair_before(p, list[at - 1]),
    ensures
        with_pair(list, p) == (if at > 0 && list[at - 1] == p {
            list
        } else {
            list.insert(at, p)
        }),
    decreases list.len() - at,
{
    if list.len() == 0 {
        assert(seq![p] =~= list.insert(0, p));
    } else if at == list.len() {
        if list.last() != p {
            assert(pair_before(list.last(), p));
            assert(list.push(p) =~= list.insert(at, p));
        }
    } else {
        let last = list.last();
        assert(pair_before(p, last));
        lemma_with_pair_at(list.drop_last(), p, at);
        if at > 0 && list[at - 1] == p {
            assert(list.drop_last().push(last) =~= list);
        } else {
            assert(list.drop_last().insert(at, p).push(last) =~= list.insert(at, p));
        }
    }
}

/// Puts `p` in its place in an ordered list, unless it is there already.
fn insert_pair(list: &mut Vec<(Ipv4Addr, u32)>, p: (Ipv4Addr, u32))
    ensures
        final(list)@ == with_pair(old(list)@, p),
{
    let mut at: usize = list.len();
    while at > 0 && (list[at - 1].0.bits > p.0.bits || (list[at - 1].0.bits == p.0.bits && list[at
        - 1].1 > p.1))
        invariant
            at <= list@.len(),
            list@ == old(list)@,
            forall|j: int| at <= j < list@.len() ==> pair_before(p, #[trigger] list@[j]),
        decreases at,
    {
        at = at - 1;
    }
    proof {
        lemma_with_pair_at(list@, p, at as int);
    }
    if at > 0 && list[at - 1].0.bits == p.0.bits && list[at - 1].1 == p.1 {
        return ;
    }
    list.insert(at, p);
}

/// Adds the members of `from` to `all`. `latest` is the member added last, if
/// any was added.
fn add_all(all: &mut HashSet<u32>, from: &HashSet<u32>, latest: &mut u32)
    ensures
        final(all)@ == old(all)@.union(from@),
        final(all)@.contains(*final(latest)) || (final(all)@ == old(all)@ && *final(latest)
            == *old(latest)),
{
    for x in it: from.iter()
        invariant
            it.seq() == spec_hash_keys_iter(from).remaining(),
            forall|y: u32|
                all@.contains(y) <==> old(all)@.contains(y) || exists|i: int|
                    0 <= i < it.index() && *it.seq()[i] == y,
            all@.contains(*latest) || (all@ == old(all)@ && *latest == *old(latest)),
    {
        all.insert(*x);
        *latest = *x;
    }
    proof {
        let keys = spec_hash_keys_iter(from).remaining();
        assert(keys.unref().to_set() == from@);
        assert forall|y: u32| all@.contains(y) <==> old(all)@.union(from@).contains(y) by {
            if all@.contains(y) && !old(all)@.contains(y) {
                let i = choose|i: int| 0 <= i < keys.len() && *keys[i] == y;
                assert(keys.unref()[i] == y);
                assert(keys.unref().contains(y));
            }
            if from@.contains(y) {
                assert(keys.unref().contains(y));
                let i = choose|i: int| 0 <= i < keys.unref().len() && keys.unref()[i] == y;
                assert(*keys[i] == y);
            }
        }
        assert(all@ =~= old(all)@.union(from@));
    }
}

/// The error message that tells of the destinations `pairs`.
pub open spec fn rerr_about(pairs: Seq<(Ipv4Addr, u32)>) -> MessageView {
    MessageView::Rerr(
        RerrView { n: false, dest_count: (pairs.len() % 256) as u8, udest_list: pairs },
    )
}

impl RERR {
    /// Writes the error message that passes on the news of the unreachable
    /// destinations `udests`: they are put in order, each once. The message
    /// goes to the one precursor of the routes to them, or to everyone where
    /// there are several. Without a precursor there is no message.
    pub fn generate_rerr(udests: Vec<(Ipv4Addr, u32)>, node: &Node) -> (out: Option<
        (Ipv4Addr, AodvMessage),
    >)
        ensures
            ({
                let pairs = sorted_pairs(udests@);
                let targets = precursors_of(node.routing_table@, pairs);
                &&& targets.finite()
                &&& out is None <==> targets.len() == 0
                &&& out is Some ==> {
                    &&& out->Some_0.1@ == rerr_about(pairs)
                    &&& targets.len() == 1 ==> targets.contains(out->Some_0.0.bits)
                    &&& targets.len() != 1 ==> out->Some_0.0 == node.config.broadcast_address
                }
            }),
    {
        let mut pairs: Vec<(Ipv4Addr, u32)> = Vec::new();
        let mut i: usize = 0;
        while i < udests.len()
            invariant
                i <= udests@.len(),
                pairs@ == sorted_pairs(udests@.take(i as int)),
            decreases udests@.len() - i,
        {
            assert(udests@.take(i + 1).drop_last() =~= udests@.take(i as int));
            insert_pair(&mut pairs, udests[i]);
            i = i + 1;
        }
        assert(udests@.take(udests@.len() as int) =~= udests@);
        let mut all: HashSet<u32> = HashSet::new();
        let mut latest: u32 = 0;
        let mut k: usize = 0;
        while k < pairs.len()
            invariant
                k <= pairs@.len(),
                all@ == precursors_of(node.routing_table@, pairs@.take(k as int)),
                all@.contains(latest) || all@ == Set::<u32>::empty(),
            decreases pairs@.len() - k,
        {
            assert(pairs@.take(k + 1).drop_last() =~= pairs@.take(k as int));
            let key: u32 = pairs[k].0.to_bits();
            let ghost before = all@;
            match node.routing_table.routes.get(&key) {
                Some(r) => {
                    add_all(&mut all, &r.precursors, &mut latest);
                    assert(r.precursors@ == precursors_at(node.routing_table@, pairs@[k as int].0));
                },
                None => {
                    assert(all@ =~= before.union(Set::<u32>::empty()));
                },
            }
            k = k + 1;
        }
        assert(pairs@.take(pairs@.len() as int) =~= pairs@);
        let count: usize = all.len();
        proof {
            let keys = spec_hash_keys_iter(&all).remaining();
            assert(keys.unref().to_set() == all@);
            vstd::seq_lib::seq_to_set_is_finite(keys.unref());
        }
        if count == 0 {
            None
        } else {
            let to: Ipv4Addr = if count == 1 {
                Ipv4Addr::from_bits(latest)
            } else {
                node.config.broadcast_address
            };
            let dest_count: u8 = (pairs.len() % 256) as u8;
            Some((to, AodvMessage::Rerr(RERR { n: false, dest_count, udest_list: pairs })))
        }
    }

    /// Handles an error message that came from the neighbour `addr` at the
    /// time `now`: every destination that it names and over which a route of
    /// this node goes is taken note of as broken, and the news is passed on to
    /// those that relied on this node. Who sent the message plays no part.
    pub fn handle_message(&self, addr: Ipv4Addr, node: &mut Node, now: i64) -> (out: Option<
        (Ipv4Addr, AodvMessage),
    >)
        requires
            old(node).wf(),
            old(node).config.in_time(now),
        ensures
            final(node).wf(),
            final(node).config == old(node).config,
            final(node).rreq_database == old(node).rreq_database,
            final(node).seq_num == old(node).seq_num,
            ({
                let kept = retained_pairs(self.udest_list@, old(node).routing_table@);
                let pairs = sorted_pairs(kept);
                let targets = precursors_of(final(node).routing_table@, pairs);
                &&& final(node).routing_table@ == after_breaks(
                    old(node).routing_table@,
                    kept,
                    now,
                    old(node).config.DELETE_PERIOD,
                )
                &&& targets.finite()
                &&& out is None <==> targets.len() == 0
                &&& out is Some ==> {
                    &&& out->Some_0.1@ == rerr_about(pairs)
                    &&& targets.len() == 1 ==> targets.contains(out->Some_0.0.bits)
                    &&& targets.len() != 1 ==> out->Some_0.0 == old(node).config.broadcast_address
                }
            }),
    {
        let mut kept: Vec<(Ipv4Addr, u32)> = Vec::new();
        let mut i: usize = 0;
        while i < self.udest_list.len()
            invariant
                i <= self.udest_list@.len(),
                kept@ == retained_pairs(self.udest_list@.take(i as int), node.routing_table@),
            decreases self.udest_list@.len() - i,
        {
            assert(self.udest_list@.take(i + 1).drop_last() =~= self.udest_list@.take(i as int));
            let entry: (Ipv4Addr, u32) = self.udest_list[i];
            if node.routing_table.uses_next_hop(entry.0) {
                kept.push(entry);
            }
            i = i + 1;
        }
        assert(self.udest_list@.take(self.udest_list@.len() as int) =~= self.udest_list@);
        let mut k: usize = 0;
        while k < kept.len()
            invariant
                k <= kept@.len(),
                node.wf(),
                node.config == old(node).config,
                node.rreq_database == old(node).rreq_database,
                node.seq_num == old(node).seq_num,
                node.config.in_time(now),
                node.routing_table@ == after_breaks(
                    old(node).routing_table@,
                    kept@.take(k as int),
                    now,
                    node.config.DELETE_PERIOD,
                ),
            decreases kept@.len() - k,
        {
            assert(kept@.take(k + 1).drop_last() =~= kept@.take(k as int));
            let entry: (Ipv4Addr, u32) = kept[k];
            node.routing_table.break_route(entry.0, entry.1, now, node.config.DELETE_PERIOD);
            k = k + 1;
        }
        assert(kept@.take(kept@.len() as int) =~= kept@);
        RERR::generate_rerr(kept, node)
    }
}

impl AodvMessage {
    /// Handles a control message that came from the neighbour `addr` at the
    /// time `now`, each kind by its own rules, and returns what is to be sent.
    /// An acknowledgement changes nothing and has no answer; a hello message
    /// is handled as the reply it holds.
    pub fn handle_message(self, addr: Ipv4Addr, node: &mut Node, now: i64) -> (out: Option<
        (Ipv4Addr, AodvMessage),
    >)
        requires
            old(node).wf(),
            old(node).config.in_time(now),
        ensures
            final(node).wf(),
            final(node).config == old(node).config,
            match self {
                AodvMessage::Rreq(r) => {
                    let outcome = rreq_outcome(
                        old(node).routing_table@,
                        old(node).rreq_database@,
                        old(node).seq_num.value,
                        r,
                        addr,
                        old(node).config,
                        now,
                    );
                    &&& final(node).routing_table@ == outcome.routes
                    &&& final(node).rreq_database@ == outcome.seen
                    &&& final(node).seq_num.value == outcome.seq_num
                    &&& sent(out) == outcome.send
                },
                AodvMessage::Rrep(r) | AodvMessage::Hello(r) => {
                    let outcome = rrep_outcome(
                        old(node).routing_table@,
                        r,
                        addr,
                        old(node).config,
                        now,
                    );
                    &&& final(node).routing_table@ == outcome.routes
                    &&& final(node).rreq_database == old(node).rreq_database
                    &&& final(node).seq_num == old(node).seq_num
                    &&& sent(out) == outcome.send
                },
                AodvMessage::Rerr(e) => {
                    let kept = retained_pairs(e.udest_list@, old(node).routing_table@);
                    let pairs = sorted_pairs(kept);
                    let targets = precursors_of(final(node).routing_table@, pairs);
                    &&& final(node).routing_table@ == after_breaks(
                        old(node).routing_table@,
                        kept,
                        now,
                        old(node).config.DELETE_PERIOD,
                    )
                    &&& final(node).rreq_database == old(node).rreq_database
                    &&& final(node).seq_num == old(node).seq_num
                    &&& targets.finite()
                    &&& out is None <==> targets.len() == 0
                    &&& out is Some ==> {
                        &&& out->Some_0.1@ == rerr_about(pairs)
                        &&& targets.len() == 1 ==> targets.contains(out->Some_0.0.bits)
                        &&& targets.len() != 1 ==> out->Some_0.0 == old(node).config.broadcast_address
                    }
                },
                AodvMessage::Ack => {
                    &&& *final(node) == *old(node)
                    &&& out is None
                },
            },
    {
        match self {
            AodvMessage::Rreq(mut r) => r.handle_message(addr, node, now),
            AodvMessage::Rrep(mut r) => r.handle_message(addr, node, now),
            AodvMessage::Rerr(r) => r.handle_message(addr, node, now),
            AodvMessage::Hello(mut r) => r.handle_message(addr, node, now),
            AodvMessage::Ack => None,
        }
    }
}

/// No handler leaves a route without a hop in a table that had none: what a
/// request, a reply or an error message leaves behind is a table in which
/// every route has at least one hop.
pub proof fn lemma_handlers_count_hops(
    routes: Map<u32, RouteView>,
    seen: Map<(u32, u32), i64>,
    seq_num: u32,
    rreq: RREQ,
    rrep: RREP,
    pairs: Seq<(Ipv4Addr, u32)>,
    neighbor: Ipv4Addr,
    config: Config,
    now: i64,
)
    requires
        hops_counted(routes),
    ensures
        hops_counted(rreq_outcome(routes, seen, seq_num, rreq, neighbor, config, now).routes),
        hops_counted(rrep_outcome(routes, rrep, neighbor, config, now).routes),
        hops_counted(after_breaks(routes, pairs, now, config.DELETE_PERIOD)),
    decreases pairs.len(),
{
    let local = config.current_ip;
    let seed = neighbor_route(neighbor, config.interface@, 0, 1);
    lemma_hops_stay_counted(routes, local, seed, neighbor, 0, now, 0);
    let known = after_set_route(routes, local, seed);
    if rreq.hop_count < u8::MAX {
        let counted = RREQ { hop_count: (rreq.hop_count + 1) as u8, ..rreq };
        let back_route = reverse_route(entry_of(known, rreq.orig_ip), counted, neighbor, config);
        lemma_hops_stay_counted(known, local, back_route, neighbor, 0, now, 0);
        let back = after_put_route(known, local, back_route);
        assert(hops_counted(after_add_precursor(back, counted.dest_ip, counted.orig_ip)));
    }
    let seed = neighbor_route(neighbor, config.interface@, rrep.dest_seq_num, 1);
    lemma_hops_stay_counted(routes, local, seed, neighbor, 0, now, 0);
    let known = if routes.contains_key(neighbor.bits) {
        routes
    } else {
        after_set_route(routes, local, seed)
    };
    if rrep.hop_count < u8::MAX {
        let counted = RREP { hop_count: (rrep.hop_count + 1) as u8, ..rrep };
        let existing = entry_of(known, rrep.dest_ip);
        let forward_entry = forward_route(existing, counted, neighbor, config, now);
        lemma_hops_stay_counted(known, local, forward_entry, neighbor, 0, now, 0);
        let forward = if forward_updated(existing, counted) {
            after_put_route(known, local, forward_entry)
        } else {
            known
        };
        assert(hops_counted(after_add_precursor(forward, rrep.dest_ip, rrep.dest_ip)));
    }
    if pairs.len() > 0 {
        lemma_handlers_count_hops(
            routes,
            seen,
            seq_num,
            rreq,
            rrep,
            pairs.drop_last(),
            neighbor,
            config,
            now,
        );
        let before = after_breaks(routes, pairs.drop_last(), now, config.DELETE_PERIOD);
        lemma_hops_stay_counted(
            before,
            local,
            seed,
            pairs.last().0,
            pairs.last().1,
            now,
            config.DELETE_PERIOD,
        );
    }
}

} // verus!

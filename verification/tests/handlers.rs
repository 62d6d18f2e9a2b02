use aodv::config::Config;
use aodv::handlers::Node;
use aodv::message::{AodvMessage, RERR, RREP, RREQ};
use aodv::routing::Route;
use aodv::wire::Ipv4Addr;
use std::collections::HashSet;

fn ip(last: u8) -> Ipv4Addr {
    Ipv4Addr::new(10, 0, 0, last)
}

fn node_at(local: Ipv4Addr) -> Node {
    let mut config = Config::default();
    config.read_args(Some(local), None);
    assert!(config.is_wf());
    Node::new(config)
}

fn broadcast() -> Ipv4Addr {
    Ipv4Addr::new(255, 255, 255, 255)
}

fn rreq(orig: Ipv4Addr, id: u32, dest: Ipv4Addr) -> RREQ {
    RREQ {
        j: false,
        r: false,
        g: false,
        d: false,
        u: false,
        hop_count: 2,
        rreq_id: id,
        dest_ip: dest,
        dest_seq_num: 3,
        orig_ip: orig,
        orig_seq_num: 8,
    }
}

fn route(dest: Ipv4Addr, next_hop: Ipv4Addr, seq: u32, hops: u8) -> Route {
    Route {
        dest_ip: dest,
        dest_seq_num: seq,
        valid_dest_seq_num: true,
        valid: true,
        interface: String::from("wlano"),
        hop_count: hops,
        next_hop,
        precursors: HashSet::new(),
        lifetime: 9000,
    }
}

fn set_of(ips: &[Ipv4Addr]) -> HashSet<u32> {
    ips.iter().map(|a| a.to_bits()).collect()
}

fn routes_of(node: &Node) -> Vec<Route> {
    let mut all: Vec<Route> = node.routing_table.routes.values().cloned().collect();
    all.sort_by_key(|r| r.dest_ip.to_bits());
    all
}

#[test]
fn a_new_request_leaves_two_routes_and_goes_on() {
    let mut node = node_at(ip(100));
    let mut msg = rreq(ip(1), 42, ip(9));
    let out = msg.handle_message(ip(7), &mut node, 1000);

    assert_eq!(msg.hop_count, 3);
    assert_eq!(out, Some((broadcast(), AodvMessage::Rreq(msg))));

    let seed = node.routing_table.lookup(ip(7)).unwrap();
    assert_eq!(
        seed,
        Route {
            dest_ip: ip(7),
            dest_seq_num: 0,
            valid_dest_seq_num: false,
            valid: false,
            interface: String::from("wlano"),
            hop_count: 1,
            next_hop: ip(7),
            precursors: HashSet::new(),
            lifetime: 0,
        }
    );
    let back = node.routing_table.lookup(ip(1)).unwrap();
    assert_eq!(
        back,
        Route {
            dest_ip: ip(1),
            dest_seq_num: 8,
            valid_dest_seq_num: true,
            valid: true,
            interface: String::from("wlano"),
            hop_count: 3,
            next_hop: ip(7),
            precursors: HashSet::new(),
            // 2 * 2800 - 2 * 3 * 40
            lifetime: 5360,
        }
    );
    assert_eq!(node.routing_table.routes.len(), 2);
    assert_eq!(node.seq_num.get(), 0);
}

#[test]
fn a_request_seen_twice_is_dropped_the_second_time() {
    let mut node = node_at(ip(100));
    let mut first = rreq(ip(1), 42, ip(9));
    let out = first.handle_message(ip(7), &mut node, 1000);
    assert!(out.is_some());
    let routes = routes_of(&node);
    let seen = node.rreq_database.seen.clone();

    let mut second = rreq(ip(1), 42, ip(9));
    let out = second.handle_message(ip(7), &mut node, 1000);
    assert_eq!(out, None);
    assert_eq!(second, rreq(ip(1), 42, ip(9)));
    assert_eq!(routes_of(&node), routes);
    assert_eq!(node.rreq_database.seen, seen);
    assert_eq!(node.seq_num.get(), 0);

    // So it is when the originator itself is the neighbour.
    let mut node = node_at(ip(100));
    let mut first = rreq(ip(1), 42, ip(9));
    assert!(first.handle_message(ip(1), &mut node, 1000).is_some());
    let routes = routes_of(&node);
    let mut second = rreq(ip(1), 42, ip(9));
    assert_eq!(second.handle_message(ip(1), &mut node, 1001), None);
    assert_eq!(routes_of(&node), routes);

    // Once the path discovery time is over the request is new again.
    let mut third = rreq(ip(1), 42, ip(9));
    assert!(third.handle_message(ip(1), &mut node, 1000 + 5600).is_some());
}

#[test]
fn a_known_originator_is_brought_up_to_date() {
    let mut node = node_at(ip(100));
    let mut old = route(ip(1), ip(3), 20, 9);
    old.lifetime = 8000;
    old.valid = false;
    old.precursors.insert(ip(50).to_bits());
    node.routing_table.set_route(old);

    let mut msg = rreq(ip(1), 42, ip(9));
    msg.handle_message(ip(7), &mut node, 1000);
    let back = node.routing_table.lookup(ip(1)).unwrap();
    // The sequence number of the request is older and is not taken; the lifetime is not shortened.
    assert_eq!(back.dest_seq_num, 20);
    assert!(back.valid_dest_seq_num);
    assert!(!back.valid);
    assert_eq!(back.next_hop, ip(7));
    assert_eq!(back.hop_count, 3);
    assert_eq!(back.lifetime, 8000);
    assert_eq!(back.precursors, set_of(&[ip(50)]));

    // A newer sequence number is taken, and a short lifetime is raised.
    let mut node = node_at(ip(100));
    let mut old = route(ip(1), ip(3), 7, 9);
    old.lifetime = 10;
    node.routing_table.set_route(old);
    let mut msg = rreq(ip(1), 43, ip(9));
    msg.handle_message(ip(7), &mut node, 1000);
    let back = node.routing_table.lookup(ip(1)).unwrap();
    assert_eq!(back.dest_seq_num, 8);
    assert_eq!(back.lifetime, 5360);

    // A sequence number that is not known gives way to that of the request.
    let mut node = node_at(ip(100));
    let mut old = route(ip(1), ip(3), 900, 9);
    old.valid_dest_seq_num = false;
    node.routing_table.put_route(old);
    let mut msg = rreq(ip(1), 44, ip(9));
    msg.handle_message(ip(7), &mut node, 1000);
    assert_eq!(node.routing_table.lookup(ip(1)).unwrap().dest_seq_num, 8);
}

#[test]
fn a_request_at_its_last_hop_goes_no_further() {
    let mut node = node_at(ip(100));
    let mut msg = rreq(ip(1), 42, ip(9));
    msg.hop_count = 255;
    assert_eq!(msg.handle_message(ip(7), &mut node, 1000), None);
    assert_eq!(msg.hop_count, 255);
    assert!(node.routing_table.contains(ip(7)));
    assert!(!node.routing_table.contains(ip(1)));
    assert!(node.rreq_database.has_origin(ip(1)));

    // With 254 hops behind it the lifetime of the way back is below zero.
    let mut msg = rreq(ip(1), 43, ip(9));
    msg.hop_count = 254;
    assert!(msg.handle_message(ip(7), &mut node, 1000).is_some());
    assert_eq!(node.routing_table.lookup(ip(1)).unwrap().lifetime, 5600 - 2 * 255 * 40);
}

#[test]
fn the_destination_answers_with_its_own_sequence_number() {
    let mut node = node_at(ip(9));
    node.seq_num.value = 17;
    let mut msg = rreq(ip(1), 42, ip(9));
    msg.dest_seq_num = 17;
    let out = msg.handle_message(ip(7), &mut node, 1000);
    let want = RREP {
        r: false,
        a: false,
        prefix_size: 0,
        hop_count: 0,
        dest_ip: ip(9),
        dest_seq_num: 17,
        orig_ip: ip(1),
        lifetime: 6000,
    };
    assert_eq!(out, Some((ip(7), AodvMessage::Rrep(want))));
    assert_eq!(node.seq_num.get(), 17);

    // A request for the next number moves the node's number on.
    let mut msg = rreq(ip(1), 43, ip(9));
    msg.dest_seq_num = 18;
    let out = msg.handle_message(ip(7), &mut node, 1000);
    assert_eq!(out, Some((ip(7), AodvMessage::Rrep(RREP { dest_seq_num: 18, ..want }))));
    assert_eq!(node.seq_num.get(), 18);

    // One for a number further on does not.
    let mut msg = rreq(ip(1), 44, ip(9));
    msg.dest_seq_num = 30;
    let out = msg.handle_message(ip(7), &mut node, 1000);
    assert_eq!(out, Some((ip(7), AodvMessage::Rrep(RREP { dest_seq_num: 18, ..want }))));
    assert_eq!(node.seq_num.get(), 18);

    // Nor does the largest number have a next one.
    node.seq_num.value = u32::MAX;
    let mut msg = rreq(ip(1), 45, ip(9));
    msg.dest_seq_num = 0;
    let out = msg.handle_message(ip(7), &mut node, 1000);
    assert_eq!(out, Some((ip(7), AodvMessage::Rrep(RREP { dest_seq_num: u32::MAX, ..want }))));
    assert_eq!(node.seq_num.get(), u32::MAX);
}

#[test]
fn a_node_with_a_fresh_route_answers_for_the_destination() {
    let mut node = node_at(ip(100));
    node.routing_table.set_route(route(ip(9), ip(5), 3, 4));
    let mut msg = rreq(ip(1), 42, ip(9));
    let out = msg.handle_message(ip(7), &mut node, 1000);
    let want = RREP {
        r: false,
        a: false,
        prefix_size: 0,
        hop_count: 4,
        dest_ip: ip(9),
        dest_seq_num: 3,
        orig_ip: ip(1),
        lifetime: 8000,
    };
    assert_eq!(out, Some((ip(7), AodvMessage::Rrep(want))));
    assert_eq!(node.routing_table.lookup(ip(9)).unwrap().precursors, set_of(&[ip(1)]));
    assert_eq!(node.seq_num.get(), 0);

    // A lifetime that is over is written as 0.
    let got = RREP::generate_rrep(&rreq(ip(1), 43, ip(9)), ip(7), &mut node, 9001);
    assert_eq!(got, Some((ip(7), AodvMessage::Rrep(RREP { lifetime: 0, ..want }))));
}

#[test]
fn a_node_without_a_fresh_route_does_not_answer() {
    // No route at all.
    let mut node = node_at(ip(100));
    assert_eq!(RREP::generate_rrep(&rreq(ip(1), 42, ip(9)), ip(7), &mut node, 0), None);
    assert!(node.routing_table.routes.is_empty());

    // A route that is too old.
    node.routing_table.set_route(route(ip(9), ip(5), 2, 4));
    assert_eq!(RREP::generate_rrep(&rreq(ip(1), 42, ip(9)), ip(7), &mut node, 0), None);

    // A route that is not valid, or whose sequence number is not known.
    let mut r = route(ip(9), ip(5), 3, 4);
    r.valid = false;
    node.routing_table.put_route(r);
    assert_eq!(RREP::generate_rrep(&rreq(ip(1), 42, ip(9)), ip(7), &mut node, 0), None);
    let mut r = route(ip(9), ip(5), 3, 4);
    r.valid_dest_seq_num = false;
    node.routing_table.put_route(r);
    assert_eq!(RREP::generate_rrep(&rreq(ip(1), 42, ip(9)), ip(7), &mut node, 0), None);

    // A request that wants the destination itself to answer.
    node.routing_table.put_route(route(ip(9), ip(5), 3, 4));
    let mut only = rreq(ip(1), 42, ip(9));
    only.d = true;
    assert_eq!(RREP::generate_rrep(&only, ip(7), &mut node, 0), None);
    assert!(node.routing_table.lookup(ip(9)).unwrap().precursors.is_empty());

    let mut msg = only;
    let out = msg.handle_message(ip(7), &mut node, 0);
    assert_eq!(out, Some((broadcast(), AodvMessage::Rreq(RREQ { hop_count: 3, ..only }))));
}

fn rrep(dest: Ipv4Addr, orig: Ipv4Addr, seq: u32, hops: u8) -> RREP {
    RREP {
        r: false,
        a: false,
        prefix_size: 0,
        hop_count: hops,
        dest_ip: dest,
        dest_seq_num: seq,
        orig_ip: orig,
        lifetime: 4000,
    }
}

#[test]
fn a_reply_gives_way_to_a_fresher_route_and_wins_over_a_longer_one() {
    let mut node = node_at(ip(100));
    node.routing_table.set_route(route(ip(2), ip(6), 5, 7));
    node.routing_table.set_route(route(ip(1), ip(3), 1, 2));

    let mut stale = rrep(ip(2), ip(1), 4, 3);
    let out = stale.handle_message(ip(4), &mut node, 1000);
    assert_eq!(out, None);
    assert_eq!(node.routing_table.lookup(ip(2)).unwrap(), route(ip(2), ip(6), 5, 7));

    // Same sequence number; with this hop counted the path has 3 hops.
    let mut better = rrep(ip(2), ip(1), 5, 2);
    let out = better.handle_message(ip(4), &mut node, 1000);
    assert_eq!(better.hop_count, 3);
    assert_eq!(out, Some((ip(3), AodvMessage::Rrep(rrep(ip(2), ip(1), 5, 3)))));
    let got = node.routing_table.lookup(ip(2)).unwrap();
    assert_eq!(got.dest_seq_num, 5);
    assert_eq!(got.hop_count, 3);
    assert_eq!(got.next_hop, ip(4));
    assert!(got.valid && got.valid_dest_seq_num);
    assert_eq!(got.lifetime, 5000);
    assert_eq!(got.precursors, set_of(&[ip(2)]));

    // Same sequence number and a path of the same length: nothing new.
    let mut same = rrep(ip(2), ip(1), 5, 2);
    assert_eq!(same.handle_message(ip(8), &mut node, 2000), None);
    assert_eq!(node.routing_table.lookup(ip(2)).unwrap().next_hop, ip(4));
}

#[test]
fn a_reply_makes_its_neighbour_and_its_destination_known() {
    let mut node = node_at(ip(100));
    let mut msg = rrep(ip(2), ip(1), 5, 2);
    // No route to the originator: nothing goes on.
    assert_eq!(msg.handle_message(ip(4), &mut node, 1000), None);
    assert_eq!(
        node.routing_table.lookup(ip(4)).unwrap(),
        Route {
            dest_ip: ip(4),
            dest_seq_num: 5,
            valid_dest_seq_num: false,
            valid: false,
            interface: String::from("wlano"),
            hop_count: 1,
            next_hop: ip(4),
            precursors: HashSet::new(),
            lifetime: 0,
        }
    );
    assert_eq!(
        node.routing_table.lookup(ip(2)).unwrap(),
        Route {
            dest_ip: ip(2),
            dest_seq_num: 5,
            valid_dest_seq_num: true,
            valid: true,
            interface: String::from("wlano"),
            hop_count: 3,
            next_hop: ip(4),
            precursors: HashSet::new(),
            lifetime: 5000,
        }
    );
    assert_eq!(node.routing_table.routes.len(), 2);
}

#[test]
fn a_reply_revives_an_invalid_route_of_the_same_age() {
    let mut node = node_at(ip(100));
    let mut dead = route(ip(2), ip(6), 5, 1);
    dead.valid = false;
    node.routing_table.set_route(dead);
    node.routing_table.set_route(route(ip(4), ip(4), 1, 1));
    let mut msg = rrep(ip(2), ip(1), 5, 9);
    assert_eq!(msg.handle_message(ip(4), &mut node, 0), None);
    let got = node.routing_table.lookup(ip(2)).unwrap();
    assert!(got.valid);
    assert_eq!(got.hop_count, 10);
    assert_eq!(got.next_hop, ip(4));
    // The neighbour was known: its route is as it was.
    assert_eq!(node.routing_table.lookup(ip(4)).unwrap(), route(ip(4), ip(4), 1, 1));
}

#[test]
fn the_originator_keeps_the_reply() {
    let mut node = node_at(ip(1));
    node.routing_table.set_route(route(ip(3), ip(3), 1, 1));
    let mut msg = rrep(ip(2), ip(1), 5, 2);
    assert_eq!(msg.handle_message(ip(4), &mut node, 1000), None);
    assert!(node.routing_table.lookup(ip(2)).unwrap().valid);
    assert!(node.routing_table.lookup(ip(2)).unwrap().precursors.is_empty());
}

#[test]
fn a_hello_is_not_passed_on() {
    let mut node = node_at(ip(100));
    node.routing_table.set_route(route(ip(1), ip(3), 1, 2));
    let hello = rrep(ip(1), ip(1), 5, 0);
    let out = AodvMessage::Hello(hello).handle_message(broadcast(), &mut node, 1000);
    assert_eq!(out, None);
    let got = node.routing_table.lookup(ip(1)).unwrap();
    assert_eq!(got.dest_seq_num, 5);
    assert_eq!(got.hop_count, 1);
    assert_eq!(got.next_hop, broadcast());
    assert!(got.precursors.is_empty());
}

#[test]
fn a_reply_at_its_last_hop_goes_no_further() {
    let mut node = node_at(ip(100));
    let mut msg = rrep(ip(2), ip(1), 5, 255);
    assert_eq!(msg.handle_message(ip(4), &mut node, 1000), None);
    assert_eq!(msg.hop_count, 255);
    assert!(node.routing_table.contains(ip(4)));
    assert!(!node.routing_table.contains(ip(2)));
}

#[test]
fn an_error_is_passed_on_to_all_when_several_rely_on_the_route() {
    let mut node = node_at(ip(100));
    let mut r = route(ip(9), ip(5), 12, 3);
    r.precursors = set_of(&[ip(1), ip(2)]);
    node.routing_table.set_route(r);
    // A route that goes over the destination that is named.
    node.routing_table.set_route(route(ip(77), ip(9), 1, 2));

    let rerr = RERR { n: false, dest_count: 1, udest_list: vec![(ip(9), 40)] };
    let out = AodvMessage::Rerr(rerr.clone()).handle_message(ip(5), &mut node, 1000);
    assert_eq!(out, Some((broadcast(), AodvMessage::Rerr(rerr))));
    let got = node.routing_table.lookup(ip(9)).unwrap();
    assert!(!got.valid);
    assert!(got.valid_dest_seq_num);
    assert_eq!(got.dest_seq_num, 40);
    assert_eq!(got.lifetime, 16_000);
    assert_eq!(got.precursors, set_of(&[ip(1), ip(2)]));
    assert!(node.routing_table.lookup(ip(77)).unwrap().valid);
}

#[test]
fn an_error_goes_to_the_one_that_relies_on_the_route() {
    let mut node = node_at(ip(100));
    let mut r = route(ip(9), ip(5), 12, 3);
    r.precursors = set_of(&[ip(1)]);
    node.routing_table.set_route(r);
    node.routing_table.set_route(route(ip(77), ip(9), 1, 2));

    let rerr = RERR { n: true, dest_count: 1, udest_list: vec![(ip(9), 4)] };
    let out = rerr.handle_message(ip(5), &mut node, 1000);
    let want = RERR { n: false, dest_count: 1, udest_list: vec![(ip(9), 4)] };
    assert_eq!(out, Some((ip(1), AodvMessage::Rerr(want))));
    // The sequence number that came is the smaller one: the route keeps its own, one further.
    assert_eq!(node.routing_table.lookup(ip(9)).unwrap().dest_seq_num, 13);
}

#[test]
fn an_error_about_what_no_route_goes_over_changes_nothing() {
    let mut node = node_at(ip(100));
    let mut r = route(ip(9), ip(5), 12, 3);
    r.precursors = set_of(&[ip(1), ip(2)]);
    node.routing_table.set_route(r);
    let before = routes_of(&node);
    let rerr = RERR { n: false, dest_count: 1, udest_list: vec![(ip(9), 40)] };
    assert_eq!(rerr.handle_message(ip(5), &mut node, 1000), None);
    assert_eq!(routes_of(&node), before);

    let none = RERR { n: false, dest_count: 0, udest_list: vec![] };
    assert_eq!(none.handle_message(ip(5), &mut node, 1000), None);
    assert_eq!(routes_of(&node), before);
}

#[test]
fn an_error_without_precursors_is_not_passed_on() {
    let mut node = node_at(ip(100));
    node.routing_table.set_route(route(ip(9), ip(5), 12, 3));
    node.routing_table.set_route(route(ip(77), ip(9), 1, 2));
    let rerr = RERR { n: false, dest_count: 1, udest_list: vec![(ip(9), 40)] };
    assert_eq!(rerr.handle_message(ip(5), &mut node, 1000), None);
    assert!(!node.routing_table.lookup(ip(9)).unwrap().valid);
}

#[test]
fn the_list_that_is_passed_on_is_in_order_and_names_nothing_twice() {
    let mut node = node_at(ip(100));
    for (dest, pre) in [(ip(9), ip(1)), (ip(8), ip(1)), (ip(200), ip(1))] {
        let mut r = route(dest, ip(5), 1, 3);
        r.precursors = set_of(&[pre]);
        node.routing_table.set_route(r);
    }
    // Routes over 9, 8 and 200, none over 7.
    node.routing_table.set_route(route(ip(71), ip(9), 1, 2));
    node.routing_table.set_route(route(ip(72), ip(8), 1, 2));
    node.routing_table.set_route(route(ip(73), ip(200), 1, 2));

    let list = vec![
        (ip(9), 5),
        (ip(200), 1),
        (ip(7), 3),
        (ip(8), 2),
        (ip(9), 5),
        (ip(9), 4),
        (ip(200), 1),
    ];
    let rerr = RERR { n: false, dest_count: 7, udest_list: list };
    let out = rerr.handle_message(ip(5), &mut node, 0);
    let want = RERR {
        n: false,
        dest_count: 4,
        udest_list: vec![(ip(8), 2), (ip(9), 4), (ip(9), 5), (ip(200), 1)],
    };
    assert_eq!(out, Some((ip(1), AodvMessage::Rerr(want))));
    // Each mention breaks the route once more: 9 was named three times, and
    // went from 1 to 2 and on to the 5 that was reported, then to 6 and to 7.
    assert_eq!(node.routing_table.lookup(ip(9)).unwrap().dest_seq_num, 7);
    assert_eq!(node.routing_table.lookup(ip(200)).unwrap().dest_seq_num, 3);
    assert_eq!(node.routing_table.lookup(ip(8)).unwrap().dest_seq_num, 2);
    assert!(!node.routing_table.contains(ip(7)));
}

#[test]
fn generate_rerr_orders_its_list_and_picks_the_target() {
    let mut node = node_at(ip(100));
    let mut r = route(ip(9), ip(5), 1, 3);
    r.precursors = set_of(&[ip(1)]);
    node.routing_table.set_route(r);
    let mut r = route(ip(8), ip(5), 1, 3);
    r.precursors = set_of(&[ip(1)]);
    node.routing_table.set_route(r);

    let out = RERR::generate_rerr(vec![(ip(9), 1), (ip(8), 1), (ip(9), 1)], &node);
    let want = RERR { n: false, dest_count: 2, udest_list: vec![(ip(8), 1), (ip(9), 1)] };
    assert_eq!(out, Some((ip(1), AodvMessage::Rerr(want.clone()))));

    node.routing_table.add_precursor(ip(8), ip(2));
    let out = RERR::generate_rerr(vec![(ip(9), 1), (ip(8), 1)], &node);
    assert_eq!(out, Some((broadcast(), AodvMessage::Rerr(want))));

    assert_eq!(RERR::generate_rerr(vec![], &node), None);
    assert_eq!(RERR::generate_rerr(vec![(ip(50), 1)], &node), None);
}

#[test]
fn a_hello_tells_of_the_node_itself() {
    let mut node = node_at(ip(100));
    node.seq_num.value = 12;
    let (to, msg) = node.hello();
    assert_eq!(to, broadcast());
    let want = RREP {
        r: false,
        a: false,
        prefix_size: 0,
        hop_count: 0,
        dest_ip: ip(100),
        dest_seq_num: 12,
        orig_ip: ip(100),
        // (1 + 2) * 1000
        lifetime: 3000,
    };
    assert_eq!(msg, AodvMessage::Hello(want));
    node.config.HELLO_INTERVAL = i64::MAX;
    node.config.ALLOWED_HELLO_LOSS = u32::MAX;
    assert_eq!(node.hello().1, AodvMessage::Hello(RREP { lifetime: u32::MAX, ..want }));
    node.config.HELLO_INTERVAL = -5;
    assert_eq!(node.hello().1, AodvMessage::Hello(RREP { lifetime: 0, ..want }));
}

#[test]
fn an_acknowledgement_changes_nothing() {
    let mut node = node_at(ip(100));
    node.routing_table.set_route(route(ip(9), ip(5), 12, 3));
    let before = routes_of(&node);
    assert_eq!(AodvMessage::Ack.handle_message(ip(5), &mut node, 1000), None);
    assert_eq!(routes_of(&node), before);
    assert!(node.rreq_database.seen.is_empty());
    assert_eq!(node.seq_num.get(), 0);
}

#[test]
fn a_message_is_handled_by_the_rules_of_its_kind() {
    let mut node = node_at(ip(100));
    let msg = rreq(ip(1), 42, ip(9));
    let out = AodvMessage::Rreq(msg).handle_message(ip(7), &mut node, 1000);
    assert_eq!(out, Some((broadcast(), AodvMessage::Rreq(RREQ { hop_count: 3, ..msg }))));

    let reply = rrep(ip(9), ip(1), 5, 2);
    let out = AodvMessage::Rrep(reply).handle_message(ip(4), &mut node, 1000);
    assert_eq!(out, Some((ip(7), AodvMessage::Rrep(RREP { hop_count: 3, ..reply }))));
}

#[test]
fn create_rrep_keeps_the_books() {
    let mut node = node_at(ip(100));
    node.routing_table.set_route(route(ip(9), ip(5), 30, 4));
    let got = RREP::create_rrep(&rreq(ip(1), 42, ip(9)), &mut node, 10_000);
    assert_eq!(got.hop_count, 4);
    assert_eq!(got.dest_seq_num, 30);
    assert_eq!(got.lifetime, 0);
    assert_eq!(got.orig_ip, ip(1));
    assert_eq!(got.dest_ip, ip(9));
    assert_eq!(node.routing_table.lookup(ip(9)).unwrap().precursors, set_of(&[ip(1)]));

    let mut node = node_at(ip(9));
    node.config.MY_ROUTE_TIMEOUT = 1 << 40;
    let got = RREP::create_rrep(&rreq(ip(1), 42, ip(9)), &mut node, 10_000);
    assert_eq!(got.lifetime, u32::MAX);
}

use aodv::routing::{Route, RoutingTable, RreqDatabase, SequenceNumber};
use aodv::wire::Ipv4Addr;
use std::collections::HashSet;

const ACTIVE_ROUTE_TIMEOUT: i64 = 3000;
const DELETE_PERIOD: i64 = 15_000;
const PATH_DISCOVERY_TIME: i64 = 5600;

fn local() -> Ipv4Addr {
    Ipv4Addr::new(192, 168, 10, 1)
}

#[test]
fn test_routing_table_methods() {
    let mut table = RoutingTable::new(local());
    let r1 = Route {
        dest_ip: Ipv4Addr::new(192, 168, 10, 2),
        dest_seq_num: 45641,
        valid_dest_seq_num: true,
        valid: true,
        interface: String::from("wlan0"),
        hop_count: 14,
        next_hop: Ipv4Addr::new(192, 168, 10, 4),
        precursors: HashSet::new(),
        lifetime: 0,
    };

    table.set_route(r1.clone());

    // Check the route was inserted properly
    assert_eq!(table.lookup(r1.dest_ip).unwrap(), r1);

    // Re-add with invalid dest_seq_num
    let mut r2 = r1.clone();
    r2.valid_dest_seq_num = false;
    r2.dest_seq_num = 0;
    table.set_route(r2.clone());

    // Check this route didn't supersede the old one
    assert_eq!(table.lookup(r2.dest_ip).unwrap(), r1);

    // Add new route with unknown dest_seq_num
    let r3 = Route {
        dest_ip: Ipv4Addr::new(192, 168, 10, 3),
        dest_seq_num: 0,
        valid_dest_seq_num: false,
        valid: true,
        interface: String::from("wlan0"),
        hop_count: 14,
        next_hop: Ipv4Addr::new(192, 168, 10, 4),
        precursors: HashSet::new(),
        lifetime: 0,
    };
    table.set_route(r3.clone());

    // Overwrite it with a valid dest_seq_num
    let mut r4 = r3.clone();
    r4.dest_seq_num = 46;
    r4.valid_dest_seq_num = true;
    table.set_route(r4.clone());

    // Check it was overwritten properly
    assert_eq!(table.lookup(r4.dest_ip).unwrap(), r4);

    // Check having a higher dest_seq_num overwrites
    let mut r5 = r4.clone();
    r5.dest_seq_num += 1;
    table.set_route(r5.clone());
    assert_eq!(table.lookup(r5.dest_ip).unwrap(), r5);

    // Check same dest_seq_num, but lower hop count overwrites
    let mut r6 = r5.clone();
    r6.hop_count -= 2;
    table.set_route(r6.clone());
    assert_eq!(table.lookup(r6.dest_ip).unwrap(), r6);
}

#[test]
fn test_lifetime_management() {
    let mut table = RoutingTable::new(local());
    // Add test route
    let r1 = Route {
        dest_ip: Ipv4Addr::new(192, 168, 10, 42),
        dest_seq_num: 45641,
        valid_dest_seq_num: true,
        valid: true,
        interface: String::from("wlan0"),
        hop_count: 14,
        next_hop: Ipv4Addr::new(192, 168, 10, 44),
        precursors: HashSet::new(),
        lifetime: 0,
    };

    table.set_route(r1.clone());

    // See if it's marked invalid when it should be
    table.expire(r1.dest_ip, 50, DELETE_PERIOD);
    match table.lookup(r1.dest_ip) {
        Some(r) => {
            assert!(!r.valid);
        }
        _ => panic!("There should be a routing table entry!"),
    }

    // Add a test route
    let r2 = Route {
        dest_ip: Ipv4Addr::new(192, 168, 10, 43),
        dest_seq_num: 45641,
        valid_dest_seq_num: true,
        valid: true,
        interface: String::from("wlan0"),
        hop_count: 14,
        next_hop: Ipv4Addr::new(192, 168, 10, 44),
        precursors: HashSet::new(),
        lifetime: 50 + ACTIVE_ROUTE_TIMEOUT,
    };
    table.set_route(r2.clone());

    // After 2/3 of its lifetime, ping it to keep it alive
    let now = 50 + ACTIVE_ROUTE_TIMEOUT * 2 / 3;
    table.expire(r2.dest_ip, now, DELETE_PERIOD);
    table.used(r2.dest_ip, now, ACTIVE_ROUTE_TIMEOUT);

    let now = now + ACTIVE_ROUTE_TIMEOUT * 2 / 3;
    table.expire(r2.dest_ip, now, DELETE_PERIOD);

    // Check it is still alive
    match table.lookup(r2.dest_ip) {
        Some(r) => {
            assert!(r.valid);
            assert_eq!(r.lifetime, 50 + ACTIVE_ROUTE_TIMEOUT * 2 / 3 + ACTIVE_ROUTE_TIMEOUT);
        }
        _ => panic!("There should be a routing table entry!"),
    }

    // Use of a dead route does not revive it
    table.used(r1.dest_ip, now, ACTIVE_ROUTE_TIMEOUT);
    match table.lookup(r1.dest_ip) {
        Some(r) => {
            assert!(!r.valid);
            assert_eq!(r.lifetime, 0);
        }
        _ => panic!("There should be a routing table entry!"),
    }
}

#[test]
fn test_sequence_number_methods() {
    let mut seq_num = SequenceNumber::default();
    let a = seq_num.get();
    assert_eq!(a, 0);

    let b = seq_num.increment_then_get();
    assert_eq!(a + 1, b);

    seq_num.increment();
    assert_eq!(b + 1, seq_num.get());
}

#[test]
fn test_methods() {
    let mut db = RreqDatabase::new();
    let ip1 = Ipv4Addr::new(192, 168, 10, 52);

    // Receive RREQ once
    assert!(!db.seen_before(ip1, 4343, 0, PATH_DISCOVERY_TIME));

    // Receive same RREQ
    assert!(db.seen_before(ip1, 4343, 1, PATH_DISCOVERY_TIME));

    // Let the RREQ delete itself
    db.manage_rreq(ip1, 4343, PATH_DISCOVERY_TIME * 3 / 2);

    // Check table was deleted properly
    assert!(!db.has_origin(ip1));
    assert!(db.seen.get(&ip1.to_bits()).is_none());
}

#[test]
fn a_request_is_remembered_for_the_path_discovery_time() {
    let mut db = RreqDatabase::new();
    let ip = Ipv4Addr::new(10, 0, 0, 1);
    assert!(!db.seen_before(ip, 42, 1000, PATH_DISCOVERY_TIME));
    assert!(db.seen_before(ip, 42, 1000, PATH_DISCOVERY_TIME));
    assert!(db.seen_before(ip, 42, 1000 + PATH_DISCOVERY_TIME - 1, PATH_DISCOVERY_TIME));
    // Another identifier and another originator are new.
    assert!(!db.seen_before(ip, 43, 1001, PATH_DISCOVERY_TIME));
    assert!(!db.seen_before(Ipv4Addr::new(10, 0, 0, 2), 42, 1001, PATH_DISCOVERY_TIME));
    // Once the time is over the request is new again, removed or not.
    assert!(!db.seen_before(ip, 42, 1000 + PATH_DISCOVERY_TIME, PATH_DISCOVERY_TIME));
    assert!(db.seen_before(ip, 42, 1000 + PATH_DISCOVERY_TIME + 1, PATH_DISCOVERY_TIME));
}

#[test]
fn a_removal_forgets_one_request_and_with_the_last_its_originator() {
    let mut db = RreqDatabase::new();
    let ip = Ipv4Addr::new(10, 0, 0, 1);
    assert!(!db.seen_before(ip, 1, 0, PATH_DISCOVERY_TIME));
    assert!(!db.seen_before(ip, 2, 100, PATH_DISCOVERY_TIME));

    // A removal that comes too early changes nothing.
    db.manage_rreq(ip, 1, PATH_DISCOVERY_TIME - 1);
    assert!(db.seen_before(ip, 1, PATH_DISCOVERY_TIME - 1, PATH_DISCOVERY_TIME));
    // Nor does one for a request that is not there.
    db.manage_rreq(ip, 9, PATH_DISCOVERY_TIME);
    db.manage_rreq(Ipv4Addr::new(10, 0, 0, 9), 1, PATH_DISCOVERY_TIME);
    assert!(db.has_origin(ip));

    db.manage_rreq(ip, 1, PATH_DISCOVERY_TIME);
    assert!(db.has_origin(ip));
    assert_eq!(db.seen.get(&ip.to_bits()).unwrap().len(), 1);
    assert!(db.seen_before(ip, 2, PATH_DISCOVERY_TIME, PATH_DISCOVERY_TIME));

    db.manage_rreq(ip, 2, PATH_DISCOVERY_TIME + 100);
    assert!(!db.has_origin(ip));
    assert!(db.seen.is_empty());
}

#[test]
fn increments_count_up_without_gaps() {
    let mut seq_num = SequenceNumber { value: 40 };
    let got: Vec<u32> = (0..5).map(|_| seq_num.increment_then_get()).collect();
    assert_eq!(got, vec![41, 42, 43, 44, 45]);
    assert_eq!(seq_num.get(), 45);
}

#[test]
fn the_sequence_number_wraps_after_the_largest() {
    let mut seq_num = SequenceNumber { value: u32::MAX - 1 };
    assert_eq!(seq_num.increment_then_get(), u32::MAX);
    assert_eq!(seq_num.increment_then_get(), 0);
    seq_num.value = u32::MAX;
    seq_num.increment();
    assert_eq!(seq_num.get(), 0);
}

fn route(dest: Ipv4Addr, seq: u32, seq_valid: bool, hops: u8) -> Route {
    Route {
        dest_ip: dest,
        dest_seq_num: seq,
        valid_dest_seq_num: seq_valid,
        valid: true,
        interface: String::from("wlan0"),
        hop_count: hops,
        next_hop: Ipv4Addr::new(192, 168, 10, 4),
        precursors: HashSet::new(),
        lifetime: 100,
    }
}

#[test]
fn set_route_keeps_an_entry_that_is_to_be_preferred() {
    let dest = Ipv4Addr::new(192, 168, 10, 2);
    let mut table = RoutingTable::new(local());
    assert!(!table.contains(dest));
    assert_eq!(table.lookup(dest), None);
    table.set_route(route(dest, 10, true, 5));
    assert!(table.contains(dest));

    // Older sequence number: kept, however short the path.
    table.set_route(route(dest, 9, true, 1));
    assert_eq!(table.lookup(dest).unwrap(), route(dest, 10, true, 5));
    // Same sequence number, same or longer path: kept.
    table.set_route(route(dest, 10, true, 5));
    table.set_route(route(dest, 10, true, 6));
    assert_eq!(table.lookup(dest).unwrap(), route(dest, 10, true, 5));
    // Same sequence number, shorter path: replaced.
    table.set_route(route(dest, 10, true, 4));
    assert_eq!(table.lookup(dest).unwrap(), route(dest, 10, true, 4));
    // Newer sequence number: replaced, however long the path.
    table.set_route(route(dest, 11, true, 200));
    assert_eq!(table.lookup(dest).unwrap(), route(dest, 11, true, 200));

    // An entry whose sequence number is not known never stands in the way.
    let other = Ipv4Addr::new(192, 168, 10, 3);
    table.set_route(route(other, 500, false, 1));
    table.set_route(route(other, 3, true, 9));
    assert_eq!(table.lookup(other).unwrap(), route(other, 3, true, 9));
}

#[test]
fn put_route_overwrites_whatever_is_there() {
    let dest = Ipv4Addr::new(192, 168, 10, 2);
    let mut table = RoutingTable::new(local());
    table.put_route(route(dest, 10, true, 5));
    table.put_route(route(dest, 1, false, 50));
    assert_eq!(table.lookup(dest).unwrap(), route(dest, 1, false, 50));
}

#[test]
fn no_route_to_the_node_itself_is_taken() {
    let mut table = RoutingTable::new(local());
    table.set_route(route(local(), 10, true, 5));
    assert_eq!(table.lookup(local()), None);
    table.put_route(route(local(), 10, true, 5));
    assert_eq!(table.lookup(local()), None);
    assert!(table.routes.is_empty());
}

#[test]
fn precursors_are_a_set() {
    let dest = Ipv4Addr::new(192, 168, 10, 2);
    let n1 = Ipv4Addr::new(192, 168, 10, 7);
    let n2 = Ipv4Addr::new(192, 168, 10, 8);
    let mut table = RoutingTable::new(local());
    // No route: nothing happens.
    table.add_precursor(dest, n1);
    assert!(table.routes.is_empty());

    table.set_route(route(dest, 10, true, 5));
    table.add_precursor(dest, n1);
    table.add_precursor(dest, n2);
    table.add_precursor(dest, n1);
    let got = table.lookup(dest).unwrap();
    let want: HashSet<u32> = [n1.to_bits(), n2.to_bits()].into_iter().collect();
    assert_eq!(got.precursors, want);
    assert_eq!(got.hop_count, 5);
}

#[test]
fn lookup_hands_out_a_copy() {
    let dest = Ipv4Addr::new(192, 168, 10, 2);
    let mut table = RoutingTable::new(local());
    table.set_route(route(dest, 10, true, 5));
    table.add_precursor(dest, Ipv4Addr::new(192, 168, 10, 7));
    let mut copy = table.lookup(dest).unwrap();
    copy.hop_count = 1;
    copy.precursors.clear();
    let again = table.lookup(dest).unwrap();
    assert_eq!(again.hop_count, 5);
    assert_eq!(again.precursors.len(), 1);
    assert_eq!(again.clone(), again);
}

#[test]
fn used_refreshes_a_valid_route() {
    let dest = Ipv4Addr::new(192, 168, 10, 2);
    let mut table = RoutingTable::new(local());
    table.set_route(route(dest, 10, true, 5));
    table.used(dest, 7000, ACTIVE_ROUTE_TIMEOUT);
    let got = table.lookup(dest).unwrap();
    assert!(got.valid);
    assert_eq!(got.lifetime, 10_000);
    // No route: nothing happens.
    table.used(Ipv4Addr::new(192, 168, 10, 99), 7000, ACTIVE_ROUTE_TIMEOUT);
    assert_eq!(table.routes.len(), 1);
}

#[test]
fn invalidate_marks_a_route_as_broken() {
    let dest = Ipv4Addr::new(192, 168, 10, 2);
    let mut table = RoutingTable::new(local());
    table.set_route(route(dest, 10, false, 5));
    table.add_precursor(dest, Ipv4Addr::new(192, 168, 10, 7));
    table.invalidate(dest, 2000, DELETE_PERIOD);
    let got = table.lookup(dest).unwrap();
    assert!(!got.valid);
    assert!(got.valid_dest_seq_num);
    assert_eq!(got.dest_seq_num, 11);
    assert_eq!(got.lifetime, 17_000);
    assert_eq!(got.hop_count, 5);
    assert_eq!(got.precursors.len(), 1);

    let mut at_end = route(Ipv4Addr::new(192, 168, 10, 3), u32::MAX, true, 5);
    at_end.valid = false;
    table.set_route(at_end);
    table.invalidate(Ipv4Addr::new(192, 168, 10, 3), 0, DELETE_PERIOD);
    assert_eq!(table.lookup(Ipv4Addr::new(192, 168, 10, 3)).unwrap().dest_seq_num, 0);

    table.invalidate(Ipv4Addr::new(192, 168, 10, 99), 2000, DELETE_PERIOD);
    assert_eq!(table.routes.len(), 2);
}

#[test]
fn break_route_takes_a_greater_sequence_number() {
    let dest = Ipv4Addr::new(192, 168, 10, 2);
    let mut table = RoutingTable::new(local());
    table.set_route(route(dest, 10, true, 5));
    table.break_route(dest, 11, 0, DELETE_PERIOD);
    assert_eq!(table.lookup(dest).unwrap().dest_seq_num, 11);
    table.break_route(dest, 50, 0, DELETE_PERIOD);
    let got = table.lookup(dest).unwrap();
    assert_eq!(got.dest_seq_num, 50);
    assert!(!got.valid);
    assert_eq!(got.lifetime, DELETE_PERIOD);
    table.break_route(Ipv4Addr::new(192, 168, 10, 99), 50, 0, DELETE_PERIOD);
    assert_eq!(table.routes.len(), 1);
}

#[test]
fn a_route_goes_from_valid_to_invalid_to_gone() {
    let dest = Ipv4Addr::new(192, 168, 10, 2);
    let mut table = RoutingTable::new(local());
    table.set_route(route(dest, 10, true, 5));
    // lifetime is 100
    table.expire(dest, 99, DELETE_PERIOD);
    assert!(table.lookup(dest).unwrap().valid);
    table.expire(dest, 100, DELETE_PERIOD);
    let got = table.lookup(dest).unwrap();
    assert!(!got.valid);
    assert_eq!(got.lifetime, 100);
    assert_eq!(got.dest_seq_num, 10);
    table.expire(dest, 100 + DELETE_PERIOD - 1, DELETE_PERIOD);
    assert!(table.contains(dest));
    table.expire(dest, 100 + DELETE_PERIOD, DELETE_PERIOD);
    assert!(!table.contains(dest));
    table.expire(dest, 100 + DELETE_PERIOD, DELETE_PERIOD);
    assert!(table.routes.is_empty());

    // The sum of lifetime and delete period may pass what a number holds.
    let mut far = route(dest, 10, true, 5);
    far.valid = false;
    far.lifetime = i64::MAX;
    table.set_route(far);
    table.expire(dest, i64::MAX, i64::MAX);
    assert!(table.contains(dest));
}

#[test]
fn all_timers_go_off_at_once() {
    let mut table = RoutingTable::new(local());
    let mut fresh = route(Ipv4Addr::new(192, 168, 10, 2), 10, true, 5);
    fresh.lifetime = 5000;
    let mut over = route(Ipv4Addr::new(192, 168, 10, 3), 10, true, 5);
    over.lifetime = 1000;
    let mut dead = route(Ipv4Addr::new(192, 168, 10, 5), 10, true, 5);
    dead.valid = false;
    dead.lifetime = 1000;
    let mut gone = route(Ipv4Addr::new(192, 168, 10, 6), 10, true, 5);
    gone.valid = false;
    gone.lifetime = -DELETE_PERIOD;
    // A valid route is only marked, however long its lifetime is over.
    let mut late = route(Ipv4Addr::new(192, 168, 10, 7), 10, true, 5);
    late.lifetime = -2 * DELETE_PERIOD;
    for r in [&fresh, &over, &dead, &gone, &late] {
        table.set_route(r.clone());
    }
    table.expire_all(1000, DELETE_PERIOD);
    assert_eq!(table.routes.len(), 4);
    assert_eq!(table.lookup(fresh.dest_ip).unwrap(), fresh);
    over.valid = false;
    assert_eq!(table.lookup(over.dest_ip).unwrap(), over);
    assert_eq!(table.lookup(dead.dest_ip).unwrap(), dead);
    assert_eq!(table.lookup(gone.dest_ip), None);
    late.valid = false;
    assert_eq!(table.lookup(late.dest_ip).unwrap(), late);

    table.expire_all(1000, DELETE_PERIOD);
    assert_eq!(table.routes.len(), 3);
    assert_eq!(table.lookup(late.dest_ip), None);
    // A timer takes a route one step further, never two.
    table.expire_all(i64::MAX, DELETE_PERIOD);
    assert_eq!(table.routes.len(), 1);
    assert!(!table.lookup(fresh.dest_ip).unwrap().valid);
    table.expire_all(i64::MAX, DELETE_PERIOD);
    assert!(table.routes.is_empty());
    table.expire_all(0, DELETE_PERIOD);
    assert!(table.routes.is_empty());
}

#[test]
fn uses_next_hop_looks_at_every_route() {
    let mut table = RoutingTable::new(local());
    assert!(!table.uses_next_hop(Ipv4Addr::new(192, 168, 10, 4)));
    table.set_route(route(Ipv4Addr::new(192, 168, 10, 2), 10, true, 5));
    table.set_route(route(Ipv4Addr::new(192, 168, 10, 3), 10, true, 5));
    assert!(table.uses_next_hop(Ipv4Addr::new(192, 168, 10, 4)));
    assert!(!table.uses_next_hop(Ipv4Addr::new(192, 168, 10, 2)));
}

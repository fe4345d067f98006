use overlay_sim::packet::copy_route;
use overlay_sim::packet::reverse_route;
use overlay_sim::packet::simplify_route;
use overlay_sim::packet::Packet;
use overlay_sim::packet::PacketRouteData;

#[test]
fn simplify_removes_a_cycle() {
    assert_eq!(simplify_route(vec![1, 2, 3, 2, 4]), vec![1, 2, 4]);
}

#[test]
fn simplify_leaves_a_route_without_cycle() {
    assert_eq!(simplify_route(vec![1, 2, 3]), vec![1, 2, 3]);
}

#[test]
fn simplify_of_a_repeated_hop() {
    assert_eq!(simplify_route(vec![1, 1]), vec![1]);
}

#[test]
fn simplify_of_empty_and_single() {
    assert_eq!(simplify_route(Vec::new()), Vec::<u64>::new());
    assert_eq!(simplify_route(vec![5]), vec![5]);
}

#[test]
fn simplify_cuts_from_first_occurrence_of_last_repeat() {
    assert_eq!(simplify_route(vec![1, 2, 1, 3, 2]), vec![1, 2]);
    assert_eq!(simplify_route(vec![1, 2, 1, 2, 3]), vec![1, 2, 3]);
    assert_eq!(simplify_route(vec![7, 8, 9, 7]), vec![7]);
    assert_eq!(simplify_route(vec![4, 4, 4]), vec![4]);
}

#[test]
fn simplify_is_idempotent_when_prefix_has_no_cycle() {
    let inputs: Vec<Vec<u64>> = vec![
        vec![],
        vec![1],
        vec![1, 2, 3],
        vec![1, 2, 3, 2, 4],
        vec![1, 1],
        vec![1, 2, 1, 3, 2],
        vec![9, 8, 7, 9, 8, 7],
    ];
    for r in inputs {
        let once = simplify_route(r.clone());
        let twice = simplify_route(once.clone());
        assert_eq!(once, twice);
        for i in 0..once.len() {
            for j in (i + 1)..once.len() {
                assert_ne!(once[i], once[j]);
            }
        }
    }
}

#[test]
fn simplify_removes_one_cycle_only() {
    assert_eq!(simplify_route(vec![1, 1, 2, 2]), vec![1, 1, 2]);
    assert_eq!(simplify_route(vec![1, 1, 2]), vec![1, 2]);
}

#[test]
fn reverse_swaps_ends_and_reverses_hops() {
    let p = Packet { from: 1, des: 9, route: vec![3, 4, 5], data: () };
    let r = p.reverse();
    assert_eq!(r.from, 9);
    assert_eq!(r.des, 1);
    assert_eq!(r.route, vec![5, 4, 3]);
}

#[test]
fn reverse_twice_is_the_packet_again() {
    let p = Packet { from: 1, des: 9, route: vec![3, 4, 5], data: 17u8 };
    let back = Packet::new(p.reverse(), 0u8).reverse();
    assert_eq!(back.from, p.from);
    assert_eq!(back.des, p.des);
    assert_eq!(back.route, p.route);
}

#[test]
fn full_route_ends_with_destination() {
    let p = Packet { from: 1, des: 9, route: vec![3, 4], data: () };
    assert_eq!(p.get_full_route(), vec![3, 4, 9]);
    let q = Packet { from: 1, des: 9, route: Vec::new(), data: () };
    assert_eq!(q.get_full_route(), vec![9]);
}

#[test]
fn new_puts_payload_under_header() {
    let p = Packet::new(PacketRouteData { from: 2, des: 3, route: vec![7] }, "x");
    assert_eq!(p.from, 2);
    assert_eq!(p.des, 3);
    assert_eq!(p.route, vec![7]);
    assert_eq!(p.data, "x");
}

#[test]
fn copy_and_reverse_route() {
    assert_eq!(copy_route(&vec![1, 2, 3]), vec![1, 2, 3]);
    assert_eq!(reverse_route(&vec![1, 2, 3]), vec![3, 2, 1]);
    assert_eq!(reverse_route(&Vec::new()), Vec::<u64>::new());
}

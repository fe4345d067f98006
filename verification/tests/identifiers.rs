use overlay_sim::dht::base::DHTNode;
use overlay_sim::dht::base::GenericId;

#[test]
fn bits_is_position_of_highest_set_bit_plus_one() {
    assert_eq!(0u64.bits(), 0);
    assert_eq!(1u64.bits(), 1);
    assert_eq!(2u64.bits(), 2);
    assert_eq!(3u64.bits(), 2);
    assert_eq!(0x80u64.bits(), 8);
    assert_eq!(0xffu64.bits(), 8);
    assert_eq!(0x100u64.bits(), 9);
    assert_eq!(u64::MAX.bits(), 64);
    assert_eq!((1u64 << 63).bits(), 64);
}

#[test]
fn is_zero_only_for_zero() {
    assert!(0u64.is_zero());
    assert!(!1u64.is_zero());
    assert!(!u64::MAX.is_zero());
}

#[test]
fn bitxor_is_exclusive_or() {
    assert_eq!(0b1100u64.bitxor(&0b1010), 0b0110);
    assert_eq!(7u64.bitxor(&7), 0);
    assert_eq!(0u64.bitxor(&u64::MAX), u64::MAX);
}

#[test]
fn xor_metric_on_values() {
    let samples: [u64; 6] = [0, 1, 0b1000, 0b1011, 0xdead_beef, u64::MAX];
    for &a in samples.iter() {
        assert_eq!(a.bitxor(&a).bits(), 0);
        for &b in samples.iter() {
            assert_eq!(a.bitxor(&b), b.bitxor(&a));
            assert_eq!(a.bitxor(&b) == 0, a == b);
            for &c in samples.iter() {
                let ac = a.bitxor(&c);
                let ab = a.bitxor(&b);
                let bc = b.bitxor(&c);
                assert!(ac <= ab.bitxor(&bc));
                assert!((ac as u128) <= (ab as u128) + (bc as u128));
            }
        }
    }
}

#[test]
fn gen_stays_below_two_to_the_bit_size() {
    for _ in 0..200 {
        assert!(u64::gen(8) < 256);
        assert!(u64::gen(1) < 2);
        assert!(u64::gen(63) < (1u64 << 63));
        assert!(u64::gen(8).bits() <= 8);
    }
}

#[test]
fn gen_of_zero_bits_is_zero() {
    for _ in 0..50 {
        assert_eq!(u64::gen(0), 0);
    }
}

#[test]
fn gen_of_full_width_varies() {
    let first = u64::gen(64);
    let mut differs = false;
    for _ in 0..64 {
        if u64::gen(64) != first {
            differs = true;
        }
    }
    assert!(differs);
}

#[test]
fn gen_of_small_width_reaches_every_value() {
    let mut seen = [false; 4];
    for _ in 0..400 {
        seen[u64::gen(2) as usize] = true;
    }
    assert_eq!(seen, [true, true, true, true]);
}

#[test]
fn node_equality_is_by_id() {
    let a = DHTNode { id: 7, route: vec![1, 2] };
    let b = DHTNode { id: 7, route: vec![9] };
    let c = DHTNode { id: 8, route: vec![1, 2] };
    assert!(a == b);
    assert!(a != c);
}

#[test]
fn node_clone_keeps_id_and_route() {
    let a = DHTNode { id: 7, route: vec![1, 2] };
    let b = a.clone();
    assert_eq!(b.id, 7);
    assert_eq!(b.route, vec![1, 2]);
}

#[test]
fn prepend_appends_hops_and_empties_the_argument() {
    let mut a = DHTNode { id: 7, route: vec![1, 2] };
    let mut hops = vec![3, 4];
    a.prepend(&mut hops);
    assert_eq!(a.route, vec![1, 2, 3, 4]);
    assert_eq!(a.id, 7);
    assert!(hops.is_empty());
}

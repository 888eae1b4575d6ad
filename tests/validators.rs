use bft_chain::validators::{max_faulty, position, proposer, proposer_index, quorum, same_bytes};
use bft_chain::view::View;

fn addr(n: u8) -> Vec<u8> {
    let mut a = vec![0u8; 20];
    a[19] = n;
    a
}

#[test]
fn quorum_arithmetic() {
    assert_eq!(max_faulty(4), 1);
    assert_eq!(quorum(4), 3);
    assert_eq!(max_faulty(1), 0);
    assert_eq!(quorum(1), 1);
    assert_eq!(max_faulty(7), 2);
    assert_eq!(quorum(7), 5);
    assert_eq!(quorum(6), 3);
    assert_eq!(max_faulty(0), 0);
}

#[test]
fn proposer_is_round_robin() {
    let vals = vec![addr(0), addr(1), addr(2), addr(3)];
    assert_eq!(proposer_index(&View::new(1, 0), 4), 1);
    assert_eq!(proposer_index(&View::new(1, 1), 4), 2);
    assert_eq!(proposer_index(&View::new(6, 3), 4), 1);
    assert_eq!(proposer(&vals, &View::new(2, 1)), &addr(3));
    assert_eq!(proposer(&vals, &View::new(u64::MAX, u64::MAX)), &vals[((u64::MAX as u128 * 2) % 4) as usize]);
}

#[test]
fn proposer_is_the_same_on_every_node() {
    let a = vec![addr(5), addr(6), addr(7)];
    let b = a.clone();
    for h in 0..10 {
        for r in 0..4 {
            let v = View::new(h, r);
            assert_eq!(proposer(&a, &v), proposer(&b, &v));
        }
    }
}

#[test]
fn membership_lookup() {
    let vals = vec![addr(1), addr(2), addr(3)];
    assert_eq!(position(&vals, &addr(3)), Some(2));
    assert_eq!(position(&vals, &addr(9)), None);
    assert!(same_bytes(&[1, 2], &[1, 2]));
    assert!(!same_bytes(&[1, 2], &[1, 3]));
    assert!(!same_bytes(&[1], &[1, 2]));
}

use bft_chain::codec::CodecError;
use bft_chain::view::{Height, View};

#[test]
fn test_view() {
    (0..10).for_each(|i| {
        let view = View {
            round: i as u64,
            height: (i + 1) as Height,
        };
        let expect_view = view.clone();
        let buf = view.encode();
        let got_view = View::decode(&buf).unwrap();
        assert_eq!(got_view.height, expect_view.height);
        assert_eq!(got_view.round, expect_view.round);
    });
}

#[test]
fn test_cmp() {
    {
        let (a, b) = (View { height: 1, round: 1 }, View { height: 1, round: 1 });
        assert_eq!(a, b);
        let (a, b) = (View { height: 2, round: 1 }, View { height: 1, round: 1 });
        assert_ne!(a, b);
        let (a, b) = (View { height: 2, round: 1 }, View { height: 2, round: 2 });
        assert_ne!(a, b);
    }
    // greater
    {
        let (a, b) = (View { height: 1, round: 1 }, View { height: 1, round: 0 });
        assert!(a > b);
        let (a, b) = (View { height: 1, round: 1 }, View { height: 0, round: 10 });
        assert!(a > b);
    }
    // less
    {
        let (a, b) = (View { height: 1, round: 0 }, View { height: 1, round: 1 });
        assert!(a < b);
        let (a, b) = (View { height: 0, round: 12 }, View { height: 1, round: 10 });
        assert!(a < b);
    }
    // greater or equal
    {
        let (a, b) = (View { height: 1, round: 1 }, View { height: 1, round: 1 });
        assert!(a >= b);
        let (a, b) = (View { height: 2, round: 1 }, View { height: 1, round: 1 });
        assert!(a >= b);
        let (a, b) = (View { height: 1, round: 1 }, View { height: 1, round: 0 });
        assert!(a >= b);
        let (a, b) = (View { height: 1, round: 1 }, View { height: 0, round: 10 });
        assert!(a >= b);
    }
    // less or equal
    {
        let (a, b) = (View { height: 1, round: 1 }, View { height: 1, round: 1 });
        assert!(a <= b);
        let (a, b) = (View { height: 1, round: 1 }, View { height: 2, round: 1 });
        assert!(a <= b);
        let (a, b) = (View { height: 1, round: 0 }, View { height: 1, round: 1 });
        assert!(a <= b);
        let (a, b) = (View { height: 0, round: 12 }, View { height: 1, round: 10 });
        assert!(a <= b);
    }
}

#[test]
fn view_order_examples() {
    assert!(View::new(1, 5) < View::new(2, 0));
    assert!(View::new(1, 0) < View::new(1, 1));
}

#[test]
fn view_order_many_pairs() {
    let mut seed: u64 = 0x2545_f491_4f6c_dd1d;
    let mut next = || {
        seed = seed.wrapping_mul(6364136223846793005).wrapping_add(1442695040888963407);
        (seed >> 33) % 5
    };
    for _ in 0..100 {
        let a = View::new(next(), next());
        let b = View::new(next(), next());
        let expect = (a.height, a.round).cmp(&(b.height, b.round));
        assert_eq!(a.partial_cmp(&b), Some(expect));
        assert_eq!(a == b, expect == std::cmp::Ordering::Equal);
        assert_eq!(a < b, !(b <= a));
    }
}

#[test]
fn view_encoding_is_big_endian() {
    let v = View::new(0x0102, 3);
    assert_eq!(
        v.encode(),
        vec![0, 0, 0, 0, 0, 0, 1, 2, 0, 0, 0, 0, 0, 0, 0, 3]
    );
    let back = View::decode(&v.encode()).unwrap();
    assert_eq!(back, v);
}

#[test]
fn view_decode_rejects_wrong_length() {
    assert_eq!(View::decode(&[0u8; 15]), Err(CodecError::CorruptedBytes));
    assert_eq!(View::decode(&[0u8; 17]), Err(CodecError::CorruptedBytes));
    assert_eq!(View::decode(&[]), Err(CodecError::CorruptedBytes));
}

#[test]
fn default_view_is_zero() {
    let v = View::default();
    assert_eq!((v.height, v.round), (0, 0));
}

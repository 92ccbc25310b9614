use welford::Ratio;
use welford::Welford;

fn whole(n: i64) -> Ratio {
    Ratio::from_int(n)
}

#[test]
fn test_welford() {
    let mut w = Welford::default();
    assert_eq!(w.mean(), None);
    assert_eq!(w.var(), None);

    assert!(w.push(whole(1)));
    assert_eq!(w.mean(), Some(whole(1)));
    assert_eq!(w.var(), None);

    assert!(w.push(whole(3)));
    assert_eq!(w.mean(), Some(whole(2)));
    assert_eq!(w.var(), Some(whole(2)));

    assert!(w.push(whole(5)));
    assert_eq!(w.mean(), Some(whole(3)));
    assert_eq!(w.var(), Some(whole(4)));
}

#[test]
fn test_weighted_welford() {
    let mut w = Welford::with_weights();
    assert_eq!(w.mean(), None);
    assert_eq!(w.var(), None);

    assert!(w.push_weighted(whole(1), 3));
    assert_eq!(w.mean(), Some(whole(1)));
    assert_eq!(w.var(), Some(whole(0)));

    assert!(w.push_weighted(whole(3), 2));
    assert_eq!(w.mean(), Some(Ratio::new(9, 5)));
    assert_eq!(w.var(), Some(Ratio::new(6, 5)));

    assert!(w.push_weighted(whole(5), 1));
    assert_eq!(w.mean(), Some(Ratio::new(7, 3)));
    assert_eq!(w.var(), Some(Ratio::new(8, 3)));
}

#[test]
fn test_merge() {
    let mut w1 = Welford::new();
    let mut w2 = Welford::new();

    assert!(w1.push(whole(1)));
    assert!(w1.push(whole(3)));
    assert!(w1.push(whole(5)));
    assert!(w1.push(whole(7)));

    assert!(w2.push(whole(2)));
    assert!(w2.push(whole(4)));
    assert!(w2.push(whole(6)));
    assert!(w2.push(whole(8)));

    assert!(w1.merge(w2));
    assert_eq!(w1.mean(), Some(Ratio::new(9, 2)));
    assert_eq!(w1.var(), Some(whole(6)));
}

#[test]
fn test_weighted_merge() {
    let mut w1 = Welford::with_weights();
    let mut w2 = Welford::with_weights();

    assert!(w1.push_weighted(whole(1), 4));
    assert!(w1.push_weighted(whole(3), 3));
    assert!(w1.push_weighted(whole(5), 2));
    assert!(w1.push_weighted(whole(7), 1));

    assert!(w2.push_weighted(whole(2), 4));
    assert!(w2.push_weighted(whole(4), 3));
    assert!(w2.push_weighted(whole(6), 2));
    assert!(w2.push_weighted(whole(8), 1));

    assert!(w1.merge(w2));
    assert_eq!(w1.mean(), Some(Ratio::new(7, 2)));
    assert_eq!(w1.var(), Some(Ratio::new(85, 19)));
}

#[test]
fn test_mean_absent_before_first_push_and_seeded_by_it() {
    let mut w = Welford::new();
    assert_eq!(w.mean(), None);
    assert!(w.push(Ratio::new(-7, 4)));
    assert_eq!(w.mean(), Some(Ratio::new(-7, 4)));
}

#[test]
fn test_var_absent_until_weight_exceeds_one() {
    let mut w = Welford::new();
    assert_eq!(w.var(), None);
    assert!(w.push(whole(9)));
    assert_eq!(w.var(), None);
    assert!(w.push(whole(9)));
    assert_eq!(w.var(), Some(whole(0)));

    let mut v = Welford::with_weights();
    assert!(v.push_weighted(whole(4), 1));
    assert_eq!(v.var(), None);
    let mut u = Welford::with_weights();
    assert!(u.push_weighted(whole(4), 2));
    assert_eq!(u.var(), Some(whole(0)));
}

#[test]
fn test_merge_with_empty_is_a_no_op() {
    let mut w = Welford::new();
    assert!(w.push(whole(2)));
    assert!(w.push(whole(4)));
    let empty = Welford::new();
    assert!(w.merge(empty));
    assert_eq!(w.mean(), Some(whole(3)));
    assert_eq!(w.var(), Some(whole(2)));

    let mut e = Welford::new();
    assert!(e.merge(w));
    assert_eq!(e.mean(), Some(whole(3)));
    assert_eq!(e.var(), Some(whole(2)));
}

#[test]
fn test_merge_order_does_not_matter() {
    let mut a1 = Welford::with_weights();
    let mut b1 = Welford::with_weights();
    assert!(a1.push_weighted(Ratio::new(1, 2), 3));
    assert!(a1.push_weighted(whole(4), 1));
    assert!(b1.push_weighted(Ratio::new(-5, 3), 2));
    assert!(b1.push_weighted(whole(6), 5));

    let a2 = a1;
    let mut b2 = b1;
    assert!(a1.merge(b1));
    assert!(b2.merge(a2));
    assert_eq!(a1.mean(), b2.mean());
    assert_eq!(a1.var(), b2.var());
}

#[test]
fn test_reads_are_idempotent() {
    let mut w = Welford::new();
    assert!(w.push(whole(1)));
    assert!(w.push(whole(2)));
    let m1 = w.mean();
    let m2 = w.mean();
    let v1 = w.var();
    let v2 = w.var();
    assert_eq!(m1, m2);
    assert_eq!(v1, v2);
    assert_eq!(m1, Some(Ratio::new(3, 2)));
    assert_eq!(v1, Some(Ratio::new(1, 2)));
}

#[test]
fn test_constant_stream_is_exactly_stable() {
    let v = Ratio::new(5, 4);
    let mut w = Welford::new();
    let mut i: u32 = 0;
    while i < 1_000_000 {
        assert!(w.push(v));
        i += 1;
    }
    assert_eq!(w.mean(), Some(v));
    assert_eq!(w.var(), Some(whole(0)));
}

#[test]
fn test_push_overflow_is_reported_and_leaves_state_unchanged() {
    let mut w = Welford::new();
    assert!(w.push(whole(i64::MAX)));
    assert!(!w.push(whole(i64::MAX - 1)));
    assert_eq!(w.mean(), Some(whole(i64::MAX)));
    assert_eq!(w.var(), None);
}

#[test]
fn test_total_weight_overflow_is_reported() {
    let mut w = Welford::with_weights();
    assert!(w.push_weighted(whole(0), u64::MAX));
    assert!(!w.push(whole(0)));
    assert_eq!(w.mean(), Some(whole(0)));
}

#[test]
fn test_ratio_is_stored_reduced() {
    assert_eq!(Ratio::new(4, 2), whole(2));
    assert_eq!(Ratio::new(-6, 4), Ratio::new(-3, 2));
    let r = Ratio::new(10, 15);
    assert_eq!(r.numer(), 2);
    assert_eq!(r.denom(), 3);
}

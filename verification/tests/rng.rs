use lib::rng::{SmallRng, FALLBACK_SEED, LCG_INCREMENT, LCG_MULTIPLIER};

#[test]
fn steps_follow_the_recurrence() {
    let mut r = SmallRng { state: 0 };
    assert_eq!(r.next_u64(), 1442695040888963407);
    assert_eq!(r.next_u64(), 1876011003808476466);
    assert_eq!(r.state, 1876011003808476466);
    let mut q = SmallRng { state: 12345 };
    assert_eq!(q.next_u64(), 12345u64.wrapping_mul(LCG_MULTIPLIER).wrapping_add(LCG_INCREMENT));
}

#[test]
fn seeding_from_the_clock() {
    assert_eq!(SmallRng::seed_from_clock(Some(0)).state, 1442695040888963407);
    assert_eq!(SmallRng::seed_from_clock(None).state, 11168841808386496181);
    assert_eq!(
        SmallRng::seed_from_clock(None).state,
        SmallRng::seed_from_clock(Some(FALLBACK_SEED)).state
    );
}

#[test]
fn draws_stay_in_range() {
    let mut r = SmallRng { state: 12345 };
    assert_eq!(r.range_inclusive(-3, 3), -3);
    assert_eq!(r.state, 2021368500568277588);
    let mut g = SmallRng { state: 99 };
    for _ in 0..1000 {
        let x = g.range_inclusive(-5, 5);
        assert!((-5..=5).contains(&x));
    }
    let before = g.state;
    assert_eq!(g.range_inclusive(4, 3), 4);
    assert_eq!(g.state, before);
    for _ in 0..1000 {
        let x = g.range_inclusive(i32::MIN, i32::MAX);
        let y = g.range_inclusive(-2_000_000_000, 2_000_000_000);
        assert!((-2_000_000_000..=2_000_000_000).contains(&y));
        let _ = x;
    }
}

#[test]
fn wide_range_draw_is_exact() {
    // x = 2021368500568277588 is the output after state 12345; the full
    // range has width 2^32.
    let mut r = SmallRng { state: 12345 };
    let x: u64 = 2021368500568277588;
    let expected = (i32::MIN as i64 + (x % (1u64 << 32)) as i64) as i32;
    assert_eq!(r.range_inclusive(i32::MIN, i32::MAX), expected);
}

#[test]
fn distinct_states_have_distinct_successors() {
    let mut seen = std::collections::HashSet::new();
    for s in 0u64..5000 {
        let mut r = SmallRng { state: s.wrapping_mul(0x9E37_79B9_7F4A_7C15) };
        assert!(seen.insert(r.next_u64()));
    }
}

#[test]
fn no_early_repeat_along_a_run() {
    let mut seen = std::collections::HashSet::new();
    let mut r = SmallRng { state: 2024 };
    assert!(seen.insert(r.state));
    for _ in 0..100_000 {
        assert!(seen.insert(r.next_u64()));
    }
}

use neptune::api::{IOPattern, SpongeOp, ABSORB_MARK, HASHER_BASE};

#[test]
fn test_tag_values() {
    let test = |expected_value: u128, pattern: IOPattern, domain_separator: u32| {
        assert_eq!(expected_value, pattern.value(domain_separator));
    };

    test(0, IOPattern(vec![]), 0);
    test(
        340282366920938463463374607431768191899,
        IOPattern(vec![]),
        123,
    );
    test(
        340282366920938463463374607090318361668,
        IOPattern(vec![SpongeOp::Absorb(2), SpongeOp::Squeeze(2)]),
        0,
    );
    test(
        340282366920938463463374607090314341989,
        IOPattern(vec![SpongeOp::Absorb(2), SpongeOp::Squeeze(2)]),
        1,
    );
    test(
        340282366920938463463374607090318361668,
        IOPattern(vec![SpongeOp::Absorb(2), SpongeOp::Squeeze(2)]),
        0,
    );
    test(
        340282366920938463463374607090318361668,
        IOPattern(vec![
            SpongeOp::Absorb(1),
            SpongeOp::Absorb(1),
            SpongeOp::Squeeze(2),
        ]),
        0,
    );
    test(
        340282366920938463463374607090318361668,
        IOPattern(vec![
            SpongeOp::Absorb(1),
            SpongeOp::Absorb(1),
            SpongeOp::Squeeze(1),
            SpongeOp::Squeeze(1),
        ]),
        0,
    );
}

#[test]
fn empty_pattern_zero_separator_tags_zero() {
    assert_eq!(IOPattern(vec![]).value(0), 0);
}

#[test]
fn empty_pattern_tag_is_one_update() {
    for d in [1u32, 123, 7777, u32::MAX] {
        let expected = HASHER_BASE.wrapping_mul(d as u128);
        assert_eq!(IOPattern(vec![]).value(d), expected);
    }
}

#[test]
fn adjacent_absorbs_tag_as_their_sum() {
    let split = IOPattern(vec![SpongeOp::Absorb(3), SpongeOp::Absorb(4)]);
    let joined = IOPattern(vec![SpongeOp::Absorb(7)]);
    for d in [0u32, 5, 99] {
        assert_eq!(split.value(d), joined.value(d));
    }
}

#[test]
fn split_runs_tag_as_joined_runs() {
    let split = IOPattern(vec![
        SpongeOp::Absorb(1),
        SpongeOp::Absorb(1),
        SpongeOp::Squeeze(1),
        SpongeOp::Squeeze(1),
    ]);
    let joined = IOPattern(vec![SpongeOp::Absorb(2), SpongeOp::Squeeze(2)]);
    assert_eq!(split.value(0), joined.value(0));
}

#[test]
fn distinct_separators_give_distinct_tags() {
    let p = IOPattern(vec![SpongeOp::Absorb(3), SpongeOp::Squeeze(1)]);
    assert_ne!(p.value(0), p.value(1));
    assert_ne!(p.value(1), p.value(2));
    assert_ne!(p.value(0), p.value(u32::MAX));
}

#[test]
fn zero_count_entries_add_nothing_but_split_runs() {
    assert_eq!(
        IOPattern(vec![SpongeOp::Absorb(0)]).value(9),
        IOPattern(vec![]).value(9)
    );
    assert_eq!(
        IOPattern(vec![SpongeOp::Squeeze(0), SpongeOp::Absorb(2)]).value(0),
        IOPattern(vec![SpongeOp::Absorb(2)]).value(0)
    );
    assert_ne!(
        IOPattern(vec![SpongeOp::Absorb(1), SpongeOp::Squeeze(0), SpongeOp::Absorb(1)]).value(0),
        IOPattern(vec![SpongeOp::Absorb(2)]).value(0)
    );
}

#[test]
fn alternation_changes_the_tag() {
    let duplex = IOPattern(vec![
        SpongeOp::Absorb(1),
        SpongeOp::Squeeze(1),
        SpongeOp::Absorb(1),
        SpongeOp::Squeeze(1),
    ]);
    let simplex = IOPattern(vec![SpongeOp::Absorb(2), SpongeOp::Squeeze(2)]);
    assert_ne!(duplex.value(0), simplex.value(0));
}

#[test]
fn sponge_op_accessors() {
    let a = SpongeOp::Absorb(5);
    let s = SpongeOp::Squeeze(7);
    assert_eq!(a.count(), 5);
    assert_eq!(s.count(), 7);
    assert!(a.is_absorb() && !a.is_squeeze());
    assert!(s.is_squeeze() && !s.is_absorb());
    assert_eq!(a.reset(), SpongeOp::Squeeze(0));
    assert_eq!(s.reset(), SpongeOp::Absorb(0));
    assert!(a.matches(SpongeOp::Absorb(0)));
    assert!(!a.matches(s));
    assert_eq!(a.combine(SpongeOp::Absorb(3)), SpongeOp::Absorb(8));
    assert_eq!(s.combine(SpongeOp::Squeeze(1)), SpongeOp::Squeeze(8));
}

#[test]
fn sponge_op_value_marks_absorbs() {
    assert_eq!(ABSORB_MARK, 1u32 << 31);
    assert_eq!(SpongeOp::Absorb(5).value(), (1u32 << 31) + 5);
    assert_eq!(SpongeOp::Squeeze(5).value(), 5);
    assert_eq!(SpongeOp::Absorb((1u32 << 31) - 1).value(), u32::MAX);
}

#[test]
fn op_at_reads_declared_entries() {
    let p = IOPattern(vec![SpongeOp::Absorb(1), SpongeOp::Squeeze(2)]);
    assert_eq!(p.op_at(0), Some(&SpongeOp::Absorb(1)));
    assert_eq!(p.op_at(1), Some(&SpongeOp::Squeeze(2)));
    assert_eq!(p.op_at(2), None);
}

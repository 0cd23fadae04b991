use neptune::api::{Error, IOPattern, SpongeOp};
use neptune::engine::{SimpleSponge, CAPACITY, FIELD_MODULUS, LIMB, LIMB_SQUARED};
use neptune::sponge::{InnerSpongeAPI, SpongeAPI};

fn hash_with(
    rate: usize,
    pattern: Vec<SpongeOp>,
    domain_separator: Option<u32>,
    inputs: &[u64],
    squeeze: u32,
) -> Vec<u64> {
    let mut sponge = SimpleSponge::new(rate);
    let acc = &mut ();
    sponge.start(IOPattern(pattern), domain_separator, acc);
    SpongeAPI::absorb(&mut sponge, inputs.len() as u32, inputs, acc);
    let out = SpongeAPI::squeeze(&mut sponge, squeeze, acc);
    assert_eq!(sponge.finish(acc), Ok(()));
    out
}

#[test]
fn simplex_three_ones_then_one_output() {
    let p = || vec![SpongeOp::Absorb(3), SpongeOp::Squeeze(1)];
    let first = hash_with(2, p(), None, &[1, 1, 1], 1);
    let second = hash_with(2, p(), None, &[1, 1, 1], 1);
    assert_eq!(first.len(), 1);
    assert_ne!(first[0], 0);
    assert!(first[0] < FIELD_MODULUS);
    assert_eq!(first, second);
}

#[test]
fn literal_non_coalesced_calls_finish() {
    let mut sponge = SimpleSponge::new(2);
    let acc = &mut ();
    sponge.start(IOPattern(vec![SpongeOp::Absorb(1), SpongeOp::Absorb(1)]), None, acc);
    SpongeAPI::absorb(&mut sponge, 1, &[1], acc);
    SpongeAPI::absorb(&mut sponge, 1, &[1], acc);
    assert_eq!(sponge.finish(acc), Ok(()));
}

#[test]
fn unconsumed_entry_is_a_mismatch() {
    let mut sponge = SimpleSponge::new(2);
    let acc = &mut ();
    sponge.start(IOPattern(vec![SpongeOp::Absorb(2)]), None, acc);
    // A single-element absorb does not match the declared entry.
    assert_ne!(sponge.pattern().op_at(0), Some(&SpongeOp::Absorb(1)));
    assert_eq!(sponge.finish(acc), Err(Error::ParameterUsageMismatch));
}

#[test]
fn fewer_calls_than_declared_is_a_mismatch() {
    let mut sponge = SimpleSponge::new(2);
    let acc = &mut ();
    sponge.start(IOPattern(vec![SpongeOp::Absorb(1), SpongeOp::Squeeze(1)]), None, acc);
    SpongeAPI::absorb(&mut sponge, 1, &[4], acc);
    assert_eq!(sponge.finish(acc), Err(Error::ParameterUsageMismatch));
}

#[test]
fn second_absorb_does_not_match_declared_squeeze() {
    let mut sponge = SimpleSponge::new(2);
    let acc = &mut ();
    sponge.start(IOPattern(vec![SpongeOp::Absorb(1), SpongeOp::Squeeze(1)]), None, acc);
    SpongeAPI::absorb(&mut sponge, 1, &[1], acc);
    assert_eq!(sponge.pattern().op_at(1), Some(&SpongeOp::Squeeze(1)));
    assert_ne!(sponge.pattern().op_at(1), Some(&SpongeOp::Absorb(1)));
}

#[test]
fn duplex_differs_from_simplex() {
    let acc = &mut ();
    let mut duplex = SimpleSponge::new(2);
    duplex.start(
        IOPattern(vec![
            SpongeOp::Absorb(1),
            SpongeOp::Squeeze(1),
            SpongeOp::Absorb(1),
            SpongeOp::Squeeze(1),
        ]),
        None,
        acc,
    );
    SpongeAPI::absorb(&mut duplex, 1, &[10], acc);
    let mut out = SpongeAPI::squeeze(&mut duplex, 1, acc);
    SpongeAPI::absorb(&mut duplex, 1, &[20], acc);
    out.extend(SpongeAPI::squeeze(&mut duplex, 1, acc));
    assert_eq!(duplex.finish(acc), Ok(()));

    let simplex = hash_with(
        2,
        vec![SpongeOp::Absorb(2), SpongeOp::Squeeze(2)],
        None,
        &[10, 20],
        2,
    );
    assert_eq!(out.len(), 2);
    assert_ne!(out, simplex);
}

#[test]
fn domain_separator_changes_output() {
    let p = || vec![SpongeOp::Absorb(2), SpongeOp::Squeeze(1)];
    let plain = hash_with(2, p(), None, &[3, 4], 1);
    let zero = hash_with(2, p(), Some(0), &[3, 4], 1);
    let one = hash_with(2, p(), Some(1), &[3, 4], 1);
    assert_eq!(plain, zero);
    assert_ne!(plain, one);
}

#[test]
fn identical_sponges_agree() {
    let p = || vec![SpongeOp::Absorb(5), SpongeOp::Squeeze(4)];
    let a = hash_with(3, p(), Some(7), &[1, 2, 3, 4, 5], 4);
    let b = hash_with(3, p(), Some(7), &[1, 2, 3, 4, 5], 4);
    assert_eq!(a, b);
}

#[test]
fn output_depends_on_each_input_and_the_tag() {
    let p = || vec![SpongeOp::Absorb(4), SpongeOp::Squeeze(1)];
    let base = hash_with(2, p(), None, &[1, 2, 3, 4], 1);
    for i in 0..4 {
        let mut inputs = vec![1u64, 2, 3, 4];
        inputs[i] += 1;
        assert_ne!(hash_with(2, p(), None, &inputs, 1), base);
    }
    assert_ne!(hash_with(2, p(), Some(3), &[1, 2, 3, 4], 1), base);
}

#[test]
fn absorbing_exactly_rate_does_not_permute() {
    let mut sponge = SimpleSponge::new(3);
    let acc = &mut ();
    sponge.start(
        IOPattern(vec![SpongeOp::Absorb(3), SpongeOp::Absorb(1)]),
        None,
        acc,
    );
    SpongeAPI::absorb(&mut sponge, 3, &[1, 2, 3], acc);
    assert_eq!(sponge.permutation_count(), 0);
    assert_eq!(sponge.absorb_pos(), 3);
    SpongeAPI::absorb(&mut sponge, 1, &[4], acc);
    assert_eq!(sponge.permutation_count(), 1);
    assert_eq!(sponge.finish(acc), Ok(()));
}

#[test]
fn absorbing_past_rate_permutes_once() {
    let mut sponge = SimpleSponge::new(3);
    let acc = &mut ();
    sponge.start(IOPattern(vec![SpongeOp::Absorb(4)]), None, acc);
    SpongeAPI::absorb(&mut sponge, 4, &[1, 2, 3, 4], acc);
    assert_eq!(sponge.permutation_count(), 1);
    assert_eq!(sponge.absorb_pos(), 1);
}

#[test]
fn first_squeeze_after_absorb_permutes() {
    let mut sponge = SimpleSponge::new(3);
    let acc = &mut ();
    sponge.start(IOPattern(vec![SpongeOp::Absorb(1), SpongeOp::Squeeze(1)]), None, acc);
    SpongeAPI::absorb(&mut sponge, 1, &[9], acc);
    assert_eq!(sponge.permutation_count(), 0);
    assert_eq!(sponge.squeeze_pos(), 3);
    SpongeAPI::squeeze(&mut sponge, 1, acc);
    assert_eq!(sponge.permutation_count(), 1);
    assert_eq!(sponge.absorb_pos(), 0);
}

#[test]
fn squeeze_permutation_counts() {
    let rate = 3usize;
    for (k, r) in [(0u32, 1u32), (1, 0), (1, 2), (2, 0), (2, 1), (3, 0)] {
        let n = k * rate as u32 + r;
        let mut sponge = SimpleSponge::new(rate);
        let acc = &mut ();
        sponge.start(IOPattern(vec![SpongeOp::Absorb(1), SpongeOp::Squeeze(n)]), None, acc);
        SpongeAPI::absorb(&mut sponge, 1, &[1], acc);
        let out = SpongeAPI::squeeze(&mut sponge, n, acc);
        assert_eq!(out.len(), n as usize);
        let expected = if r > 0 { k + 1 } else { k };
        assert_eq!(sponge.permutation_count(), expected as u64);
        assert_eq!(sponge.finish(acc), Ok(()));
    }
}

#[test]
fn start_seeds_capacity_and_clears_rate() {
    let mut sponge = SimpleSponge::new(2);
    let acc = &mut ();
    let p = IOPattern(vec![SpongeOp::Absorb(2), SpongeOp::Squeeze(2)]);
    let tag = p.value(0);
    sponge.start(p, None, acc);
    let state = sponge.state_elements();
    let limbs = [
        (tag % LIMB) as u64,
        ((tag / LIMB) % LIMB) as u64,
        (tag / LIMB_SQUARED) as u64,
    ];
    assert_eq!(CAPACITY, 3);
    assert_eq!(state, vec![limbs[0], limbs[1], limbs[2], 0, 0]);
    assert_eq!(
        limbs[0] as u128 + limbs[1] as u128 * LIMB + limbs[2] as u128 * LIMB_SQUARED,
        tag
    );
    assert_eq!(sponge.absorb_pos(), 0);
    assert_eq!(sponge.squeeze_pos(), 0);
}

#[test]
fn finish_scrubs_to_zero_tag() {
    let mut sponge = SimpleSponge::new(2);
    let acc = &mut ();
    sponge.start(IOPattern(vec![SpongeOp::Absorb(2)]), Some(5), acc);
    SpongeAPI::absorb(&mut sponge, 2, &[6, 7], acc);
    assert_eq!(sponge.finish(acc), Ok(()));
    assert_eq!(sponge.state_elements(), vec![0, 0, 0, 0, 0]);
}

#[test]
fn absorb_adds_into_rate_slots() {
    let mut sponge = SimpleSponge::new(3);
    let acc = &mut ();
    sponge.start(IOPattern(vec![SpongeOp::Absorb(2)]), None, acc);
    SpongeAPI::absorb(&mut sponge, 2, &[6, FIELD_MODULUS + 7], acc);
    let state = sponge.state_elements();
    assert_eq!(&state[CAPACITY..], &[6, 7, 0]);
}

#[test]
fn zero_count_call_consumes_its_entry() {
    let mut sponge = SimpleSponge::new(2);
    let acc = &mut ();
    sponge.start(
        IOPattern(vec![SpongeOp::Absorb(0), SpongeOp::Absorb(1)]),
        None,
        acc,
    );
    SpongeAPI::absorb(&mut sponge, 0, &[], acc);
    SpongeAPI::absorb(&mut sponge, 1, &[8], acc);
    assert_eq!(sponge.finish(acc), Ok(()));
}

#[test]
fn single_slot_output_matches_the_mixing_step() {
    let p = || vec![SpongeOp::Absorb(1), SpongeOp::Squeeze(1)];
    let tag = IOPattern(p()).value(0);
    let limbs = [tag % LIMB, (tag / LIMB) % LIMB, tag / LIMB_SQUARED];
    // state [limbs, 5]; slot 3 gains the sum of all slots and four.
    let m = FIELD_MODULUS as u128;
    let total = (limbs[0] + limbs[1] + limbs[2] + 5) % m;
    let expected = ((5 + total + 4) % m) as u64;
    let out = hash_with(1, p(), None, &[5], 1);
    assert_eq!(out, vec![expected]);
}

//! The generic sponge algorithm, over any engine that supplies the state, the
//! permutation and the value arithmetic.
use vstd::prelude::*;
use vstd::arithmetic::div_mod::lemma_fundamental_div_mod_converse_div;
use crate::api::{Error, IOPattern, SpongeOp, runs_bounded, tag_of};

verus! {

/// What an engine must supply. The spec functions are the engine's model:
/// the generic algorithm reasons over them alone.
pub trait InnerSpongeAPI: Sized {
    type Acc;
    type Value;

    /// Length of the rate region.
    spec fn spec_rate(&self) -> nat;

    /// Next rate slot to be written.
    spec fn spec_absorb_pos(&self) -> nat;

    /// Next rate slot to be read.
    spec fn spec_squeeze_pos(&self) -> nat;

    /// The declared pattern of the current interaction.
    spec fn spec_pattern(&self) -> Seq<SpongeOp>;

    /// How many pattern entries have been consumed.
    spec fn spec_io_count(&self) -> nat;

    /// How many permutations have been applied since construction.
    spec fn spec_permutations(&self) -> nat;

    /// The tag the capacity was last seeded with.
    spec fn spec_tag(&self) -> u128;

    /// Length of the capacity region, which precedes the rate region.
    spec fn spec_capacity(&self) -> nat;

    /// The whole state: the capacity slots, then the rate slots.
    spec fn spec_state(&self) -> Seq<Self::Value>;

    /// The permutation, as a function of the whole state.
    spec fn spec_permutation(s: Seq<Self::Value>) -> Seq<Self::Value>;

    /// Value addition.
    spec fn spec_add(a: Self::Value, b: Self::Value) -> Self::Value;

    /// The zero value.
    spec fn spec_zero() -> Self::Value;

    /// The capacity slots that encode a tag.
    spec fn spec_seed(tag: u128) -> Seq<Self::Value>;

    /// The engine's own invariant.
    spec fn wf(&self) -> bool;

    /// The invariant keeps the rate non-empty, both positions within it, and
    /// the pattern's length within `usize`.
    proof fn lemma_wf_bounds(&self)
        requires
            self.wf(),
        ensures
            self.spec_rate() > 0,
            self.spec_absorb_pos() <= self.spec_rate(),
            self.spec_squeeze_pos() <= self.spec_rate(),
            self.spec_pattern().len() <= usize::MAX,
            self.spec_state().len() == self.spec_capacity() + self.spec_rate(),
    ;

    /// Seeds the capacity from `tag`.
    fn initialize_capacity(&mut self, tag: u128, acc: &mut Self::Acc)
        requires
            old(self).wf(),
        ensures
            final(self).wf(),
            final(self).spec_tag() == tag,
            final(self).spec_state() == Self::spec_seed(tag) + old(self).spec_state().skip(
                old(self).spec_capacity() as int,
            ),
            final(self).spec_absorb_pos() == old(self).spec_absorb_pos(),
            final(self).spec_squeeze_pos() == old(self).spec_squeeze_pos(),
            final(self).spec_permutations() == old(self).spec_permutations(),
            final(self).spec_rate() == old(self).spec_rate(),
            final(self).spec_capacity() == old(self).spec_capacity(),
            final(self).spec_pattern() == old(self).spec_pattern(),
            final(self).spec_io_count() == old(self).spec_io_count(),
    ;

    /// A copy of rate slot `offset`.
    fn read_rate_element(&mut self, offset: usize) -> (r: Self::Value)
        requires
            old(self).wf(),
            offset < old(self).spec_rate(),
        ensures
            final(self).wf(),
            r == old(self).spec_state()[old(self).spec_capacity() + offset],
            final(self).spec_state() == old(self).spec_state(),
            final(self).spec_absorb_pos() == old(self).spec_absorb_pos(),
            final(self).spec_squeeze_pos() == old(self).spec_squeeze_pos(),
            final(self).spec_permutations() == old(self).spec_permutations(),
            final(self).spec_rate() == old(self).spec_rate(),
            final(self).spec_capacity() == old(self).spec_capacity(),
            final(self).spec_pattern() == old(self).spec_pattern(),
            final(self).spec_io_count() == old(self).spec_io_count(),
            final(self).spec_tag() == old(self).spec_tag(),
    ;

    /// Stores `x` in rate slot `offset`; the caller passes the sum of the old
    /// value and what it adds.
    fn add_rate_element(&mut self, offset: usize, x: &Self::Value)
        requires
            old(self).wf(),
            offset < old(self).spec_rate(),
        ensures
            final(self).wf(),
            final(self).spec_state() == old(self).spec_state().update(
                old(self).spec_capacity() + offset,
                *x,
            ),
            final(self).spec_absorb_pos() == old(self).spec_absorb_pos(),
            final(self).spec_squeeze_pos() == old(self).spec_squeeze_pos(),
            final(self).spec_permutations() == old(self).spec_permutations(),
            final(self).spec_rate() == old(self).spec_rate(),
            final(self).spec_capacity() == old(self).spec_capacity(),
            final(self).spec_pattern() == old(self).spec_pattern(),
            final(self).spec_io_count() == old(self).spec_io_count(),
            final(self).spec_tag() == old(self).spec_tag(),
    ;

    /// Applies the permutation to the whole state.
    fn permute(&mut self, acc: &mut Self::Acc)
        requires
            old(self).wf(),
        ensures
            final(self).wf(),
            final(self).spec_permutations() == old(self).spec_permutations() + 1,
            final(self).spec_state() == Self::spec_permutation(old(self).spec_state()),
            final(self).spec_absorb_pos() == old(self).spec_absorb_pos(),
            final(self).spec_squeeze_pos() == old(self).spec_squeeze_pos(),
            final(self).spec_rate() == old(self).spec_rate(),
            final(self).spec_capacity() == old(self).spec_capacity(),
            final(self).spec_pattern() == old(self).spec_pattern(),
            final(self).spec_io_count() == old(self).spec_io_count(),
            final(self).spec_tag() == old(self).spec_tag(),
    ;

    /// Length of the rate region.
    fn rate(&self) -> (r: usize)
        requires
            self.wf(),
        ensures
            r == self.spec_rate(),
    ;

    /// Next rate slot to be written.
    fn absorb_pos(&self) -> (r: usize)
        requires
            self.wf(),
        ensures
            r == self.spec_absorb_pos(),
    ;

    /// Next rate slot to be read.
    fn squeeze_pos(&self) -> (r: usize)
        requires
            self.wf(),
        ensures
            r == self.spec_squeeze_pos(),
    ;

    /// Moves the write position.
    fn set_absorb_pos(&mut self, pos: usize)
        requires
            old(self).wf(),
            pos <= old(self).spec_rate(),
        ensures
            final(self).wf(),
            final(self).spec_absorb_pos() == pos,
            final(self).spec_squeeze_pos() == old(self).spec_squeeze_pos(),
            final(self).spec_permutations() == old(self).spec_permutations(),
            final(self).spec_rate() == old(self).spec_rate(),
            final(self).spec_capacity() == old(self).spec_capacity(),
            final(self).spec_state() == old(self).spec_state(),
            final(self).spec_pattern() == old(self).spec_pattern(),
            final(self).spec_io_count() == old(self).spec_io_count(),
            final(self).spec_tag() == old(self).spec_tag(),
    ;

    /// Moves the read position.
    fn set_squeeze_pos(&mut self, pos: usize)
        requires
            old(self).wf(),
            pos <= old(self).spec_rate(),
        ensures
            final(self).wf(),
            final(self).spec_squeeze_pos() == pos,
            final(self).spec_absorb_pos() == old(self).spec_absorb_pos(),
            final(self).spec_permutations() == old(self).spec_permutations(),
            final(self).spec_rate() == old(self).spec_rate(),
            final(self).spec_capacity() == old(self).spec_capacity(),
            final(self).spec_state() == old(self).spec_state(),
            final(self).spec_pattern() == old(self).spec_pattern(),
            final(self).spec_io_count() == old(self).spec_io_count(),
            final(self).spec_tag() == old(self).spec_tag(),
    ;

    /// Value addition.
    fn add(a: Self::Value, b: &Self::Value) -> (r: Self::Value)
        ensures
            r == Self::spec_add(a, *b),
    ;

    /// Seeds the capacity from `p_value` and clears the rate region.
    fn initialize_state(&mut self, p_value: u128, acc: &mut Self::Acc)
        requires
            old(self).wf(),
        ensures
            final(self).wf(),
            final(self).spec_tag() == p_value,
            final(self).spec_state() == Self::spec_seed(p_value) + Seq::new(
                old(self).spec_rate(),
                |i: int| Self::spec_zero(),
            ),
            final(self).spec_absorb_pos() == old(self).spec_absorb_pos(),
            final(self).spec_squeeze_pos() == old(self).spec_squeeze_pos(),
            final(self).spec_permutations() == old(self).spec_permutations(),
            final(self).spec_rate() == old(self).spec_rate(),
            final(self).spec_capacity() == old(self).spec_capacity(),
            final(self).spec_pattern() == old(self).spec_pattern(),
            final(self).spec_io_count() == old(self).spec_io_count(),
    {
        proof {
            old(self).lemma_wf_bounds();
        }
        self.initialize_capacity(p_value, acc);
        proof {
            self.lemma_wf_bounds();
        }
        let ghost cap = self.spec_capacity();
        let ghost seed = Self::spec_seed(p_value);
        let rate = self.rate();
        let mut i: usize = 0;
        while i < rate
            invariant
                self.wf(),
                rate == self.spec_rate(),
                0 <= i <= rate,
                cap == self.spec_capacity(),
                seed.len() == cap,
                self.spec_state().len() == cap + rate,
                self.spec_state().take(cap as int) == seed,
                forall|k: int| 0 <= k < i ==> #[trigger] self.spec_state()[cap + k] == Self::spec_zero(),
                self.spec_tag() == p_value,
                self.spec_absorb_pos() == old(self).spec_absorb_pos(),
                self.spec_squeeze_pos() == old(self).spec_squeeze_pos(),
                self.spec_permutations() == old(self).spec_permutations(),
                self.spec_rate() == old(self).spec_rate(),
                self.spec_pattern() == old(self).spec_pattern(),
                self.spec_io_count() == old(self).spec_io_count(),
            decreases rate - i,
        {
            let z = Self::zero();
            let ghost before = self.spec_state();
            self.add_rate_element(i, &z);
            proof {
                self.lemma_wf_bounds();
                assert(self.spec_state().take(cap as int) == before.take(cap as int));
            }
            i = i + 1;
        }
        proof {
            let zeros = Seq::new(rate as nat, |k: int| Self::spec_zero());
            let st = self.spec_state();
            assert forall|k: int| 0 <= k < st.len() implies st[k] == (seed + zeros)[k] by {
                if k < cap {
                    assert(st.take(cap as int)[k] == st[k]);
                } else {
                    assert(st[cap + (k - cap)] == Self::spec_zero());
                }
            }
            assert(st =~= seed + zeros);
        }
    }

    /// The declared pattern of the current interaction.
    fn pattern(&self) -> (r: &IOPattern)
        requires
            self.wf(),
        ensures
            r@ == self.spec_pattern(),
    ;

    /// Stores the pattern of a new interaction and rewinds the cursor.
    fn set_pattern(&mut self, pattern: IOPattern)
        requires
            old(self).wf(),
        ensures
            final(self).wf(),
            final(self).spec_pattern() == pattern@,
            final(self).spec_io_count() == 0,
            final(self).spec_tag() == old(self).spec_tag(),
            final(self).spec_rate() == old(self).spec_rate(),
            final(self).spec_capacity() == old(self).spec_capacity(),
            final(self).spec_state() == old(self).spec_state(),
            final(self).spec_absorb_pos() == old(self).spec_absorb_pos(),
            final(self).spec_squeeze_pos() == old(self).spec_squeeze_pos(),
            final(self).spec_permutations() == old(self).spec_permutations(),
    ;

    /// Returns the cursor, then advances it by one.
    fn increment_io_count(&mut self) -> (r: usize)
        requires
            old(self).wf(),
            old(self).spec_io_count() < usize::MAX,
        ensures
            final(self).wf(),
            r == old(self).spec_io_count(),
            final(self).spec_io_count() == old(self).spec_io_count() + 1,
            final(self).spec_tag() == old(self).spec_tag(),
            final(self).spec_rate() == old(self).spec_rate(),
            final(self).spec_capacity() == old(self).spec_capacity(),
            final(self).spec_state() == old(self).spec_state(),
            final(self).spec_pattern() == old(self).spec_pattern(),
            final(self).spec_absorb_pos() == old(self).spec_absorb_pos(),
            final(self).spec_squeeze_pos() == old(self).spec_squeeze_pos(),
            final(self).spec_permutations() == old(self).spec_permutations(),
    ;

    /// The zero value.
    fn zero() -> (r: Self::Value)
        ensures
            r == Self::spec_zero(),
    ;
}

/// Both positions and the permutation count agree.
pub open spec fn same_positions<S: InnerSpongeAPI>(a: &S, b: &S) -> bool {
    &&& b.spec_absorb_pos() == a.spec_absorb_pos()
    &&& b.spec_squeeze_pos() == a.spec_squeeze_pos()
    &&& b.spec_permutations() == a.spec_permutations()
}

/// Rate, capacity, pattern, cursor and tag agree.
pub open spec fn same_interaction<S: InnerSpongeAPI>(a: &S, b: &S) -> bool {
    &&& b.spec_rate() == a.spec_rate()
    &&& b.spec_capacity() == a.spec_capacity()
    &&& b.spec_pattern() == a.spec_pattern()
    &&& b.spec_io_count() == a.spec_io_count()
    &&& b.spec_tag() == a.spec_tag()
}

/// A call of shape `op` is accepted when the cursor points at an entry equal
/// to it.
pub open spec fn accepts_call(pattern: Seq<SpongeOp>, io_count: nat, op: SpongeOp) -> bool {
    io_count < pattern.len() && pattern[io_count as int] == op
}

/// `finish` succeeds exactly when every declared entry was consumed.
pub open spec fn completes(pattern: Seq<SpongeOp>, io_count: nat) -> bool {
    io_count == pattern.len()
}

/// Permutations triggered by moving `n` slots through a rate of `rate`,
/// starting at `pos`: one each time the position stands at the rate
/// boundary before a slot is used.
pub open spec fn permutations_for(pos: nat, n: nat, rate: nat) -> nat {
    if n == 0 {
        0
    } else {
        ((pos + n - 1) as nat / rate) as nat
    }
}

/// The position after moving `n` slots through a rate of `rate` from `pos`.
pub open spec fn position_after(pos: nat, n: nat, rate: nat) -> nat {
    (pos + n - rate * permutations_for(pos, n, rate)) as nat
}

/// Absorbing one element at rate position `pos`: a full rate region is
/// permuted first, then the element is added into the next rate slot.
/// Gives the new state and position.
pub open spec fn absorb_step<S: InnerSpongeAPI>(
    st: Seq<S::Value>,
    pos: nat,
    e: S::Value,
    cap: nat,
    rate: nat,
) -> (Seq<S::Value>, nat) {
    let s1 = if pos == rate {
        S::spec_permutation(st)
    } else {
        st
    };
    let slot: nat = if pos == rate {
        0
    } else {
        pos
    };
    (s1.update((cap + slot) as int, S::spec_add(s1[(cap + slot) as int], e)), (slot + 1) as nat)
}

/// Absorbing `els` in order from rate position `pos`.
pub open spec fn absorb_all<S: InnerSpongeAPI>(
    st: Seq<S::Value>,
    pos: nat,
    els: Seq<S::Value>,
    cap: nat,
    rate: nat,
) -> (Seq<S::Value>, nat)
    decreases els.len(),
{
    if els.len() == 0 {
        (st, pos)
    } else {
        let prev = absorb_all::<S>(st, pos, els.drop_last(), cap, rate);
        absorb_step::<S>(prev.0, prev.1, els.last(), cap, rate)
    }
}

/// Squeezing `n` elements from rate position `pos`: before each read an
/// exhausted rate region is permuted. Gives the new state, the new position
/// and the elements read.
pub open spec fn squeeze_all<S: InnerSpongeAPI>(
    st: Seq<S::Value>,
    pos: nat,
    n: nat,
    cap: nat,
    rate: nat,
) -> (Seq<S::Value>, nat, Seq<S::Value>)
    decreases n,
{
    if n == 0 {
        (st, pos, Seq::empty())
    } else {
        let prev = squeeze_all::<S>(st, pos, (n - 1) as nat, cap, rate);
        let s1 = if prev.1 == rate {
            S::spec_permutation(prev.0)
        } else {
            prev.0
        };
        let slot: nat = if prev.1 == rate {
            0
        } else {
            prev.1
        };
        (s1, (slot + 1) as nat, prev.2.push(s1[(cap + slot) as int]))
    }
}

/// The sponge protocol: `start`, then absorbs and squeezes as declared,
/// then `finish`.
pub trait SpongeAPI: InnerSpongeAPI {
    /// Begins an interaction: seeds the capacity with the pattern's tag
    /// under `domain_separator` (zero when absent).
    fn start(&mut self, p: IOPattern, domain_separator: Option<u32>, acc: &mut Self::Acc)
        requires
            old(self).wf(),
            runs_bounded(p@),
        ensures
            final(self).wf(),
            final(self).spec_pattern() == p@,
            final(self).spec_io_count() == 0,
            final(self).spec_absorb_pos() == 0,
            final(self).spec_squeeze_pos() == 0,
            final(self).spec_permutations() == old(self).spec_permutations(),
            final(self).spec_rate() == old(self).spec_rate(),
            final(self).spec_capacity() == old(self).spec_capacity(),
            final(self).spec_tag() == tag_of(
                p@,
                match domain_separator {
                    Some(d) => d,
                    None => 0u32,
                },
            ),
            final(self).spec_capacity() == old(self).spec_capacity(),
            final(self).spec_state() == Self::spec_seed(final(self).spec_tag()) + Seq::new(
                old(self).spec_rate(),
                |i: int| Self::spec_zero(),
            ),
    ;

    /// Adds `elements` into the rate region, permuting whenever it is full
    /// before a write, and consumes the declared entry `Absorb(length)`.
    fn absorb(&mut self, length: u32, elements: &[Self::Value], acc: &mut Self::Acc)
        requires
            old(self).wf(),
            elements@.len() == length,
            accepts_call(old(self).spec_pattern(), old(self).spec_io_count(), SpongeOp::Absorb(length)),
        ensures
            final(self).wf(),
            final(self).spec_io_count() == old(self).spec_io_count() + 1,
            final(self).spec_pattern() == old(self).spec_pattern(),
            final(self).spec_rate() == old(self).spec_rate(),
            final(self).spec_capacity() == old(self).spec_capacity(),
            final(self).spec_tag() == old(self).spec_tag(),
            final(self).spec_permutations() == old(self).spec_permutations() + permutations_for(
                old(self).spec_absorb_pos(),
                length as nat,
                old(self).spec_rate(),
            ),
            final(self).spec_absorb_pos() == position_after(
                old(self).spec_absorb_pos(),
                length as nat,
                old(self).spec_rate(),
            ),
            final(self).spec_squeeze_pos() == final(self).spec_rate(),
            final(self).spec_capacity() == old(self).spec_capacity(),
            (final(self).spec_state(), final(self).spec_absorb_pos()) == absorb_all::<Self>(
                old(self).spec_state(),
                old(self).spec_absorb_pos(),
                elements@,
                old(self).spec_capacity(),
                old(self).spec_rate(),
            ),
    ;

    /// Reads `length` elements from the rate region, permuting whenever it is
    /// exhausted before a read, and consumes the declared entry
    /// `Squeeze(length)`.
    fn squeeze(&mut self, length: u32, acc: &mut Self::Acc) -> (r: Vec<Self::Value>)
        requires
            old(self).wf(),
            accepts_call(old(self).spec_pattern(), old(self).spec_io_count(), SpongeOp::Squeeze(length)),
        ensures
            final(self).wf(),
            r@.len() == length,
            final(self).spec_io_count() == old(self).spec_io_count() + 1,
            final(self).spec_pattern() == old(self).spec_pattern(),
            final(self).spec_rate() == old(self).spec_rate(),
            final(self).spec_capacity() == old(self).spec_capacity(),
            final(self).spec_tag() == old(self).spec_tag(),
            final(self).spec_permutations() == old(self).spec_permutations() + permutations_for(
                old(self).spec_squeeze_pos(),
                length as nat,
                old(self).spec_rate(),
            ),
            final(self).spec_squeeze_pos() == position_after(
                old(self).spec_squeeze_pos(),
                length as nat,
                old(self).spec_rate(),
            ),
            final(self).spec_absorb_pos() == if permutations_for(
                old(self).spec_squeeze_pos(),
                length as nat,
                old(self).spec_rate(),
            ) == 0 {
                old(self).spec_absorb_pos()
            } else {
                0
            },
            final(self).spec_capacity() == old(self).spec_capacity(),
            (final(self).spec_state(), final(self).spec_squeeze_pos(), r@) == squeeze_all::<Self>(
                old(self).spec_state(),
                old(self).spec_squeeze_pos(),
                length as nat,
                old(self).spec_capacity(),
                old(self).spec_rate(),
            ),
    ;

    /// Scrubs the state back to the zero tag and reports whether every
    /// declared entry was consumed.
    fn finish(&mut self, acc: &mut Self::Acc) -> (r: Result<(), Error>)
        requires
            old(self).wf(),
            old(self).spec_io_count() < usize::MAX,
        ensures
            final(self).wf(),
            r is Ok <==> completes(old(self).spec_pattern(), old(self).spec_io_count()),
            r is Err ==> r == Err::<(), Error>(Error::ParameterUsageMismatch),
            final(self).spec_tag() == 0,
            final(self).spec_state() == Self::spec_seed(0) + Seq::new(
                old(self).spec_rate(),
                |i: int| Self::spec_zero(),
            ),
            final(self).spec_io_count() == old(self).spec_io_count() + 1,
            final(self).spec_pattern() == old(self).spec_pattern(),
            same_positions(old(self), final(self)),
    ;
}

/// Where the loop over `n` slots from `pos` stands after `i` of them, the
/// closed forms agree with it.
proof fn lemma_moved(pos: nat, n: nat, rate: nat, k: nat, p: nat)
    requires
        rate > 0,
        n > 0,
        1 <= p <= rate,
        pos + n == k * rate + p,
    ensures
        permutations_for(pos, n, rate) == k,
        position_after(pos, n, rate) == p,
{
    lemma_fundamental_div_mod_converse_div((pos + n - 1) as int, rate as int, k as int, p - 1);
    assert(rate * k == k * rate) by (nonlinear_arith);
}

/// One more full rate.
proof fn lemma_one_more_rate(k: int, rate: int)
    ensures
        (k + 1) * rate == k * rate + rate,
        0 * rate == 0,
        rate * 0 == 0,
{
    assert((k + 1) * rate == k * rate + rate) by (nonlinear_arith);
}

/// Issuing exactly the declared operations, in order, satisfies every call's
/// shape check, and `finish` then succeeds.
pub proof fn lemma_declared_calls_complete(pattern: Seq<SpongeOp>, calls: Seq<SpongeOp>)
    requires
        calls == pattern,
    ensures
        forall|i: int| 0 <= i < calls.len() ==> accepts_call(pattern, i as nat, #[trigger] calls[i]),
        completes(pattern, calls.len()),
{
}

/// Issuing any other sequence of operations either fails some call's shape
/// check or leaves `finish` with a mismatch.
pub proof fn lemma_other_calls_rejected(pattern: Seq<SpongeOp>, calls: Seq<SpongeOp>)
    requires
        calls != pattern,
    ensures
        (exists|i: int| 0 <= i < calls.len() && !accepts_call(pattern, i as nat, #[trigger] calls[i]))
            || !completes(pattern, calls.len()),
{
    if calls.len() > pattern.len() {
        let i = pattern.len() as int;
        assert(!accepts_call(pattern, i as nat, calls[i]));
    } else if calls.len() == pattern.len() {
        assert(!(calls =~= pattern));
        let i = choose|i: int| 0 <= i < calls.len() && calls[i] != pattern[i];
        assert(!accepts_call(pattern, i as nat, calls[i]));
    }
}

/// From an empty rate region, absorbing exactly `rate` elements permutes
/// nothing and leaves the region full, so the next absorb or squeeze of at
/// least one element permutes.
pub proof fn lemma_absorb_full_rate(rate: nat, next: nat)
    requires
        rate > 0,
        next > 0,
    ensures
        permutations_for(0, rate, rate) == 0,
        position_after(0, rate, rate) == rate,
        permutations_for(rate, next, rate) >= 1,
{
    lemma_one_more_rate(0, rate as int);
    lemma_moved(0, rate, rate, 0, rate);
    lemma_squeeze_after_absorb(rate, next);
}

/// From an empty rate region, absorbing `rate + 1` elements permutes once.
pub proof fn lemma_absorb_past_rate(rate: nat)
    requires
        rate > 0,
    ensures
        permutations_for(0, rate + 1, rate) == 1,
{
    lemma_one_more_rate(0, rate as int);
    lemma_moved(0, rate + 1, rate, 1, 1);
}

/// After an absorb the squeeze position stands at the rate, so squeezing at
/// least one element permutes before the first output.
pub proof fn lemma_squeeze_after_absorb(rate: nat, n: nat)
    requires
        rate > 0,
        n > 0,
    ensures
        permutations_for(rate, n, rate) >= 1,
{
    assert((rate + n - 1) as nat >= rate);
    vstd::arithmetic::div_mod::lemma_div_is_ordered(rate as int, (rate + n - 1) as int, rate as int);
    vstd::arithmetic::div_mod::lemma_div_by_self(rate as int);
}

/// After an absorb, squeezing `k * rate + r` elements permutes `k + 1` times
/// when `0 < r < rate`, and `k` times when `r == 0`.
pub proof fn lemma_squeeze_permutation_count(rate: nat, k: nat, r: nat)
    requires
        rate > 0,
        r < rate,
    ensures
        r > 0 ==> permutations_for(rate, k * rate + r, rate) == k + 1,
        r == 0 ==> permutations_for(rate, k * rate + r, rate) == k,
{
    lemma_one_more_rate(k as int, rate as int);
    if r > 0 {
        lemma_moved(rate, k * rate + r, rate, k + 1, r);
    } else if k > 0 {
        lemma_one_more_rate((k - 1) as int, rate as int);
        lemma_moved(rate, k * rate, rate, k, rate);
    } else {
        assert(k * rate == 0) by (nonlinear_arith)
            requires
                k == 0,
        ;
    }
}

/// Two engines of one kind whose models agree on rate and capacity, started
/// on the same pattern and domain separator, hold the same state; fed the
/// same elements they reach the same state, and then squeeze the same
/// outputs.
pub proof fn lemma_same_inputs_same_outputs<S: InnerSpongeAPI>(
    a: S,
    b: S,
    p: Seq<SpongeOp>,
    domain_separator: u32,
    elements: Seq<S::Value>,
    n: nat,
)
    requires
        a.spec_rate() == b.spec_rate(),
        a.spec_capacity() == b.spec_capacity(),
    ensures
        ({
            let rate = a.spec_rate();
            let cap = a.spec_capacity();
            let started_a = S::spec_seed(tag_of(p, domain_separator) as u128) + Seq::new(
                a.spec_rate(),
                |i: int| S::spec_zero(),
            );
            let started_b = S::spec_seed(tag_of(p, domain_separator) as u128) + Seq::new(
                b.spec_rate(),
                |i: int| S::spec_zero(),
            );
            let absorbed_a = absorb_all::<S>(started_a, 0, elements, cap, rate);
            let absorbed_b = absorb_all::<S>(started_b, 0, elements, b.spec_capacity(), b.spec_rate());
            &&& started_a == started_b
            &&& absorbed_a == absorbed_b
            &&& squeeze_all::<S>(absorbed_a.0, rate, n, cap, rate) == squeeze_all::<S>(
                absorbed_b.0,
                b.spec_rate(),
                n,
                b.spec_capacity(),
                b.spec_rate(),
            )
        }),
{
}

impl<S: InnerSpongeAPI> SpongeAPI for S {
    fn start(&mut self, p: IOPattern, domain_separator: Option<u32>, acc: &mut Self::Acc) {
        let d: u32 = match domain_separator {
            Some(d) => d,
            None => 0,
        };
        let p_value = p.value(d);
        self.set_pattern(p);
        self.initialize_state(p_value, acc);
        self.set_absorb_pos(0);
        self.set_squeeze_pos(0);
    }

    fn absorb(&mut self, length: u32, elements: &[Self::Value], acc: &mut Self::Acc) {
        let rate = self.rate();
        let ghost a0 = self.spec_absorb_pos();
        let ghost perm0 = self.spec_permutations();
        let ghost s0 = self.spec_state();
        let ghost cap = self.spec_capacity();
        proof {
            lemma_one_more_rate(0, rate as int);
        }
        let mut i: usize = 0;
        while i < elements.len()
            invariant
                self.wf(),
                rate == self.spec_rate(),
                0 <= i <= elements@.len(),
                elements@.len() == length,
                same_interaction(old(self), self),
                cap == self.spec_capacity(),
                self.spec_squeeze_pos() == old(self).spec_squeeze_pos(),
                self.spec_permutations() >= perm0,
                (self.spec_state(), self.spec_absorb_pos()) == absorb_all::<S>(
                    s0,
                    a0,
                    elements@.take(i as int),
                    cap,
                    rate as nat,
                ),
                i == 0 ==> self.spec_permutations() == perm0,
                i > 0 ==> 1 <= self.spec_absorb_pos(),
                a0 + i == (self.spec_permutations() - perm0) * rate + self.spec_absorb_pos(),
            decreases elements@.len() - i,
        {
            proof {
                self.lemma_wf_bounds();
            }
            proof {
                lemma_one_more_rate(self.spec_permutations() - perm0, rate as int);
            }
            let ghost pst = self.spec_state();
            let ghost ppos = self.spec_absorb_pos();
            if self.absorb_pos() == rate {
                self.permute(acc);
                self.set_absorb_pos(0);
            }
            let pos = self.absorb_pos();
            let old_value = self.read_rate_element(pos);
            let mixed = S::add(old_value, &elements[i]);

            self.add_rate_element(pos, &mixed);

            self.set_absorb_pos(pos + 1);
            proof {
                let els = elements@.take(i as int + 1);
                assert(els.drop_last() == elements@.take(i as int));
                assert(els.last() == elements@[i as int]);
                let step = absorb_step::<S>(pst, ppos, elements@[i as int], cap, rate as nat);
                assert(absorb_all::<S>(s0, a0, els, cap, rate as nat) == step);
                assert(self.spec_state() == step.0);
                assert(self.spec_absorb_pos() == step.1);
            }
            i = i + 1;
        }
        proof {
            assert(elements@.take(i as int) == elements@);
            self.lemma_wf_bounds();
            if length > 0 {
                lemma_moved(a0, length as nat, rate as nat, (self.spec_permutations() - perm0) as nat,
                    self.spec_absorb_pos());
            }
        }
        self.increment_io_count();
        self.set_squeeze_pos(rate);
    }

    fn squeeze(&mut self, length: u32, acc: &mut Self::Acc) -> (r: Vec<Self::Value>) {
        let rate = self.rate();
        let ghost s0 = self.spec_squeeze_pos();
        let ghost perm0 = self.spec_permutations();
        let ghost st0 = self.spec_state();
        let ghost cap = self.spec_capacity();
        proof {
            lemma_one_more_rate(0, rate as int);
        }
        let mut out: Vec<Self::Value> = Vec::with_capacity(length as usize);
        let mut i: u32 = 0;
        while i < length
            invariant
                self.wf(),
                rate == self.spec_rate(),
                0 <= i <= length,
                out@.len() == i,
                same_interaction(old(self), self),
                cap == self.spec_capacity(),
                (self.spec_state(), self.spec_squeeze_pos(), out@) == squeeze_all::<S>(
                    st0,
                    s0,
                    i as nat,
                    cap,
                    rate as nat,
                ),
                self.spec_permutations() >= perm0,
                i == 0 ==> self.spec_permutations() == perm0,
                i > 0 ==> 1 <= self.spec_squeeze_pos(),
                s0 + i == (self.spec_permutations() - perm0) * rate + self.spec_squeeze_pos(),
                self.spec_absorb_pos() == if self.spec_permutations() == perm0 {
                    old(self).spec_absorb_pos()
                } else {
                    0
                },
            decreases length - i,
        {
            proof {
                self.lemma_wf_bounds();
            }
            proof {
                lemma_one_more_rate(self.spec_permutations() - perm0, rate as int);
            }
            let ghost pst = self.spec_state();
            let ghost ppos = self.spec_squeeze_pos();
            let ghost pout = out@;
            if self.squeeze_pos() == rate {
                self.permute(acc);
                self.set_squeeze_pos(0);
                self.set_absorb_pos(0);
            }
            let pos = self.squeeze_pos();
            let v = self.read_rate_element(pos);
            out.push(v);
            self.set_squeeze_pos(pos + 1);
            proof {
                let s1 = if ppos == rate {
                    S::spec_permutation(pst)
                } else {
                    pst
                };
                let slot: nat = if ppos == rate {
                    0
                } else {
                    ppos
                };
                assert(squeeze_all::<S>(st0, s0, (i + 1) as nat, cap, rate as nat) == (
                    s1,
                    (slot + 1) as nat,
                    pout.push(s1[(cap + slot) as int]),
                ));
                assert(self.spec_state() == s1);
                assert(out@ == pout.push(s1[(cap + slot) as int]));
            }
            i = i + 1;
        }
        proof {
            self.lemma_wf_bounds();
            if length > 0 {
                lemma_moved(s0, length as nat, rate as nat, (self.spec_permutations() - perm0) as nat,
                    self.spec_squeeze_pos());
            }
        }
        self.increment_io_count();
        out
    }

    fn finish(&mut self, acc: &mut Self::Acc) -> (r: Result<(), Error>) {
        self.initialize_state(0, acc);
        proof {
            self.lemma_wf_bounds();
        }
        let final_io_count = self.increment_io_count();
        if final_io_count == self.pattern().0.len() {
            Ok(())
        } else {
            Err(Error::ParameterUsageMismatch)
        }
    }
}

} // verus!

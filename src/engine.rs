//! An engine over integers modulo the prime 2^61 - 1: three capacity slots
//! that hold the tag in 60-bit limbs, followed by the rate slots, and an invertible affine mixing step as its
//! permutation. It is deterministic and exercises the sponge algorithm; it is
//! not a cryptographic permutation.
use vstd::prelude::*;
use crate::api::{IOPattern, SpongeOp};
use crate::sponge::{InnerSpongeAPI, absorb_all, squeeze_all};
use vstd::arithmetic::div_mod::{
    lemma_add_mod_noop_right,
    lemma_div_denominator,
    lemma_fundamental_div_mod,
    lemma_fundamental_div_mod_converse_mod,
    lemma_mod_bound,
    lemma_mod_multiples_vanish,
    lemma_sub_mod_noop,
};

verus! {

/// The prime 2^61 - 1; the permutation works on values reduced modulo it.
pub const FIELD_MODULUS: u64 = 2305843009213693951;

/// Number of capacity slots.
pub const CAPACITY: usize = 3;

/// 2^60: the base of the limbs that encode a tag.
pub const LIMB: u128 = 1152921504606846976;

/// 2^120: the weight of the top limb.
pub const LIMB_SQUARED: u128 = 1329227995784915872903807060280344576;

pub struct SimpleSponge {
    state: Vec<u64>,
    rate: usize,
    absorb_pos: usize,
    squeeze_pos: usize,
    pattern: IOPattern,
    io_count: usize,
    tag: u128,
    permutation_count: u64,
    permutations: Ghost<nat>,
}

/// The sum of the first `n` values, modulo `FIELD_MODULUS`.
pub open spec fn sum_mod(s: Seq<u64>, n: int) -> int
    decreases n,
{
    if n <= 0 {
        0
    } else {
        (sum_mod(s, n - 1) + (s[n - 1] % FIELD_MODULUS) as int) % FIELD_MODULUS as int
    }
}

/// The mixing step, on values reduced modulo `FIELD_MODULUS`: slot `j` gains
/// the sum of all slots and `j + 1`. Its matrix is the identity plus the all-ones matrix,
/// invertible while the width is below the modulus minus one.
pub open spec fn mix(s: Seq<u64>) -> Seq<u64> {
    Seq::new(s.len(), |j: int| mix_slot(s[j], sum_mod(s, s.len() as int), j))
}

/// One slot of `mix`.
pub open spec fn mix_slot(x: u64, total: int, j: int) -> u64 {
    (((x % FIELD_MODULUS) as int + total + j + 1) % FIELD_MODULUS as int) as u64
}

/// Distinct tags seed distinct capacity slots, so two interactions whose
/// tags differ start from different states.
pub proof fn lemma_distinct_tags_distinct_seeds(t1: u128, t2: u128)
    requires
        t1 != t2,
    ensures
        <SimpleSponge as InnerSpongeAPI>::spec_seed(t1) != <SimpleSponge as InnerSpongeAPI>::spec_seed(
            t2,
        ),
{
    let l = LIMB as int;
    let a = t1 as int;
    let b = t2 as int;
    let s1 = <SimpleSponge as InnerSpongeAPI>::spec_seed(t1);
    let s2 = <SimpleSponge as InnerSpongeAPI>::spec_seed(t2);
    if s1 == s2 {
        assert(s1[0] == s2[0] && s1[1] == s2[1] && s1[2] == s2[2]);
        lemma_fundamental_div_mod(a, l);
        lemma_fundamental_div_mod(b, l);
        lemma_fundamental_div_mod(a / l, l);
        lemma_fundamental_div_mod(b / l, l);
        lemma_div_denominator(a, l, l);
        lemma_div_denominator(b, l, l);
        assert(a % l == b % l);
        assert((a / l) % l == (b / l) % l);
        assert(a / l / l == b / l / l);
        assert(a / l == b / l);
    }
}

/// A non-zero integer strictly between `-2 * FIELD_MODULUS` and
/// `2 * FIELD_MODULUS`, other than plus or minus the modulus, is not a
/// multiple of it.
proof fn lemma_not_multiple(v: int)
    requires
        -2 * (FIELD_MODULUS as int) < v < 2 * (FIELD_MODULUS as int),
        v != 0,
        v != FIELD_MODULUS as int,
        v != -(FIELD_MODULUS as int),
    ensures
        v % (FIELD_MODULUS as int) != 0,
{
    let m = FIELD_MODULUS as int;
    if v < -m {
        lemma_fundamental_div_mod_converse_mod(v, m, -2, v + 2 * m);
    } else if v < 0 {
        lemma_fundamental_div_mod_converse_mod(v, m, -1, v + m);
    } else if v < m {
        lemma_fundamental_div_mod_converse_mod(v, m, 0, v);
    } else {
        lemma_fundamental_div_mod_converse_mod(v, m, 1, v - m);
    }
}

/// Changing slot `k` from `y` to `x` shifts every running sum past `k` by
/// `x - y`, modulo `FIELD_MODULUS`.
proof fn lemma_sum_mod_update(s: Seq<u64>, k: int, x: u64, y: u64, n: int)
    requires
        0 <= k < s.len(),
        0 <= n <= s.len(),
    ensures
        n <= k ==> sum_mod(s.update(k, x), n) == sum_mod(s.update(k, y), n),
        n > k ==> sum_mod(s.update(k, x), n) == (sum_mod(s.update(k, y), n) + (x
            % FIELD_MODULUS) as int - (y % FIELD_MODULUS) as int) % (FIELD_MODULUS as int),
    decreases n,
{
    let m = FIELD_MODULUS as int;
    let sx = s.update(k, x);
    let sy = s.update(k, y);
    let d = (x % FIELD_MODULUS) as int - (y % FIELD_MODULUS) as int;
    if n > 0 {
        lemma_sum_mod_update(s, k, x, y, n - 1);
        let a = sum_mod(sx, n - 1);
        let b = sum_mod(sy, n - 1);
        let c = (sx[n - 1] % FIELD_MODULUS) as int;
        if n - 1 == k {
            assert(a == b);
            assert(c == (x % FIELD_MODULUS) as int);
            lemma_add_mod_noop_right(d, b + (y % FIELD_MODULUS) as int, m);
        } else if n - 1 > k {
            assert(sx[n - 1] == sy[n - 1]);
            lemma_add_mod_noop_right(c, b + d, m);
            lemma_add_mod_noop_right(d, b + c, m);
        }
    }
}

/// Every output slot of the permutation depends on every input slot: setting
/// one slot to values that differ modulo `FIELD_MODULUS` changes each slot of
/// the result.
pub proof fn lemma_mix_depends_on_every_slot(s: Seq<u64>, k: int, x: u64, y: u64, j: int)
    requires
        0 <= k < s.len(),
        0 <= j < s.len(),
        x % FIELD_MODULUS != y % FIELD_MODULUS,
    ensures
        mix(s.update(k, x))[j] != mix(s.update(k, y))[j],
{
    let m = FIELD_MODULUS as int;
    let sx = s.update(k, x);
    let sy = s.update(k, y);
    let n = s.len() as int;
    let d = (x % FIELD_MODULUS) as int - (y % FIELD_MODULUS) as int;
    lemma_sum_mod_update(s, k, x, y, n);
    let t1 = sum_mod(sx, n);
    let t2 = sum_mod(sy, n);
    let e = t2 + d;
    lemma_fundamental_div_mod(e, m);
    let q = e / m;
    assert(t1 == e - m * q);
    let cx = (sx[j] % FIELD_MODULUS) as int;
    let cy = (sy[j] % FIELD_MODULUS) as int;
    let a = cx + t1 + j + 1;
    let b = cy + t2 + j + 1;
    let big_d = cx - cy;
    assert(a - b == m * (-q) + (big_d + d));
    lemma_mod_multiples_vanish(-q, big_d + d, m);
    lemma_mod_bound(a, m);
    lemma_mod_bound(b, m);
    if mix(sx)[j] == mix(sy)[j] {
        assert(a % m == b % m);
        lemma_sub_mod_noop(a, b, m);
        lemma_fundamental_div_mod_converse_mod(0, m, 0, 0);
        assert((big_d + d) % m == 0);
        if j == k {
            assert(big_d == d);
            lemma_not_multiple(2 * d);
        } else {
            assert(big_d == 0);
            lemma_not_multiple(d);
        }
    }
}

/// The state after adding `els` into the rate slots from the first one on.
pub open spec fn filled(st: Seq<u64>, els: Seq<u64>) -> Seq<u64> {
    Seq::new(
        st.len(),
        |t: int|
            if CAPACITY <= t < CAPACITY + els.len() {
                <SimpleSponge as InnerSpongeAPI>::spec_add(st[t], els[t - CAPACITY])
            } else {
                st[t]
            },
    )
}

/// From rate position zero, absorbing at most `rate` elements adds each into
/// its own rate slot and permutes nothing.
proof fn lemma_absorb_within_rate(st: Seq<u64>, els: Seq<u64>, rate: nat)
    requires
        st.len() == CAPACITY + rate,
        els.len() <= rate,
    ensures
        absorb_all::<SimpleSponge>(st, 0, els, CAPACITY as nat, rate) == (filled(st, els), els.len()),
    decreases els.len(),
{
    if els.len() == 0 {
        assert(filled(st, els) =~= st);
    } else {
        let init = els.drop_last();
        lemma_absorb_within_rate(st, init, rate);
        let k = CAPACITY + init.len();
        let prev = filled(st, init);
        assert(prev[k] == st[k]);
        assert(prev.update(
            k,
            <SimpleSponge as InnerSpongeAPI>::spec_add(prev[k], els.last()),
        ) =~= filled(st, els));
    }
}

/// Adding into a slot keeps values that differ modulo `FIELD_MODULUS` apart.
proof fn lemma_add_keeps_apart(a: u64, x: u64, y: u64)
    requires
        x % FIELD_MODULUS != y % FIELD_MODULUS,
    ensures
        <SimpleSponge as InnerSpongeAPI>::spec_add(a, x) != <SimpleSponge as InnerSpongeAPI>::spec_add(
            a,
            y,
        ),
{
    let m = FIELD_MODULUS as int;
    let u = (a % FIELD_MODULUS) as int + (x % FIELD_MODULUS) as int;
    let v = (a % FIELD_MODULUS) as int + (y % FIELD_MODULUS) as int;
    lemma_mod_bound(u, m);
    lemma_mod_bound(v, m);
    if u % m == v % m {
        lemma_sub_mod_noop(u, v, m);
        lemma_fundamental_div_mod_converse_mod(0, m, 0, 0);
        lemma_not_multiple(u - v);
    }
}

/// The first element squeezed after one absorb of at most `rate` elements
/// depends on each of them: two element sequences that differ, modulo
/// `FIELD_MODULUS`, in one position alone give different outputs, from any
/// starting state.
#[verifier::rlimit(30)]
pub proof fn lemma_output_depends_on_each_input(
    st: Seq<u64>,
    e1: Seq<u64>,
    e2: Seq<u64>,
    i: int,
    rate: nat,
)
    requires
        rate > 0,
        st.len() == CAPACITY + rate,
        e1.len() == e2.len(),
        e1.len() <= rate,
        0 <= i < e1.len(),
        forall|t: int| 0 <= t < e1.len() && t != i ==> e1[t] == e2[t],
        e1[i] % FIELD_MODULUS != e2[i] % FIELD_MODULUS,
    ensures
        squeeze_all::<SimpleSponge>(
            absorb_all::<SimpleSponge>(st, 0, e1, CAPACITY as nat, rate).0,
            rate,
            1,
            CAPACITY as nat,
            rate,
        ).2 != squeeze_all::<SimpleSponge>(
            absorb_all::<SimpleSponge>(st, 0, e2, CAPACITY as nat, rate).0,
            rate,
            1,
            CAPACITY as nat,
            rate,
        ).2,
{
    lemma_absorb_within_rate(st, e1, rate);
    lemma_absorb_within_rate(st, e2, rate);
    let f1 = filled(st, e1);
    let f2 = filled(st, e2);
    let k = CAPACITY + i;
    let v1 = <SimpleSponge as InnerSpongeAPI>::spec_add(st[k], e1[i]);
    let v2 = <SimpleSponge as InnerSpongeAPI>::spec_add(st[k], e2[i]);
    lemma_add_keeps_apart(st[k], e1[i], e2[i]);
    assert(v1 % FIELD_MODULUS == v1 && v2 % FIELD_MODULUS == v2);
    assert(f1.update(k, v1) =~= f1);
    assert(f1.update(k, v2) =~= f2);
    lemma_mix_depends_on_every_slot(f1, k, v1, v2, CAPACITY as int);
    assert(squeeze_all::<SimpleSponge>(f1, rate, 0, CAPACITY as nat, rate) == (
        f1,
        rate,
        Seq::<u64>::empty(),
    ));
    assert(squeeze_all::<SimpleSponge>(f2, rate, 0, CAPACITY as nat, rate) == (
        f2,
        rate,
        Seq::<u64>::empty(),
    ));
    let o1 = squeeze_all::<SimpleSponge>(f1, rate, 1, CAPACITY as nat, rate).2;
    let o2 = squeeze_all::<SimpleSponge>(f2, rate, 1, CAPACITY as nat, rate).2;
    assert(o1[0] == mix(f1)[CAPACITY as int]);
    assert(o2[0] == mix(f2)[CAPACITY as int]);
}

impl SimpleSponge {
    /// A sponge with `CAPACITY` capacity slots and `rate` rate slots, all zero.
    pub fn new(rate: usize) -> (r: Self)
        requires
            0 < rate < FIELD_MODULUS - 4,
            rate < usize::MAX - CAPACITY,
        ensures
            r.wf(),
            r.spec_rate() == rate,
            r.spec_absorb_pos() == 0,
            r.spec_squeeze_pos() == 0,
            r.spec_pattern() == Seq::<SpongeOp>::empty(),
            r.spec_io_count() == 0,
            r.spec_permutations() == 0,
            r.spec_tag() == 0,
            r.state_view() == Seq::new((rate + CAPACITY) as nat, |i: int| 0u64),
    {
        let mut state: Vec<u64> = Vec::new();
        let mut i: usize = 0;
        while i < rate + CAPACITY
            invariant
                0 <= i <= rate + CAPACITY,
                rate < usize::MAX - CAPACITY,
                state@ == Seq::new(i as nat, |k: int| 0u64),
            decreases rate + CAPACITY - i,
        {
            state.push(0);
            i = i + 1;
        }
        SimpleSponge {
            state,
            rate,
            absorb_pos: 0,
            squeeze_pos: 0,
            pattern: IOPattern(Vec::new()),
            io_count: 0,
            tag: 0,
            permutation_count: 0,
            permutations: Ghost(0),
        }
    }

    /// The capacity slots followed by the rate slots.
    pub closed spec fn state_view(&self) -> Seq<u64> {
        self.state@
    }

    /// How many permutations were applied, saturating at `u64::MAX`.
    pub fn permutation_count(&self) -> (r: u64)
        requires
            self.wf(),
        ensures
            r == if self.spec_permutations() <= u64::MAX {
                self.spec_permutations()
            } else {
                u64::MAX as nat
            },
    {
        self.permutation_count
    }

    /// The capacity slots followed by the rate slots.
    pub fn state_elements(&self) -> (r: Vec<u64>)
        ensures
            r@ == self.state_view(),
    {
        self.state.clone()
    }
}

impl InnerSpongeAPI for SimpleSponge {
    type Acc = ();
    type Value = u64;

    closed spec fn spec_rate(&self) -> nat {
        self.rate as nat
    }

    closed spec fn spec_absorb_pos(&self) -> nat {
        self.absorb_pos as nat
    }

    closed spec fn spec_squeeze_pos(&self) -> nat {
        self.squeeze_pos as nat
    }

    closed spec fn spec_pattern(&self) -> Seq<SpongeOp> {
        self.pattern@
    }

    closed spec fn spec_io_count(&self) -> nat {
        self.io_count as nat
    }

    closed spec fn spec_permutations(&self) -> nat {
        self.permutations@
    }

    closed spec fn spec_tag(&self) -> u128 {
        self.tag
    }

    closed spec fn spec_capacity(&self) -> nat {
        CAPACITY as nat
    }

    closed spec fn spec_state(&self) -> Seq<u64> {
        self.state@
    }

    open spec fn spec_permutation(s: Seq<u64>) -> Seq<u64> {
        mix(s)
    }

    open spec fn spec_add(a: u64, b: u64) -> u64 {
        (((a % FIELD_MODULUS) as int + (b % FIELD_MODULUS) as int) % FIELD_MODULUS as int) as u64
    }

    open spec fn spec_zero() -> u64 {
        0
    }

    open spec fn spec_seed(tag: u128) -> Seq<u64> {
        seq![(tag % LIMB) as u64, ((tag / LIMB) % LIMB) as u64, (tag / LIMB_SQUARED) as u64]
    }

    closed spec fn wf(&self) -> bool {
        &&& 0 < self.rate < FIELD_MODULUS - 4
        &&& self.rate < usize::MAX - CAPACITY
        &&& self.state@.len() == self.rate + CAPACITY
        &&& self.absorb_pos <= self.rate
        &&& self.squeeze_pos <= self.rate
        &&& self.pattern@.len() <= usize::MAX
        &&& self.permutation_count == if self.permutations@ <= u64::MAX {
            self.permutations@
        } else {
            u64::MAX as nat
        }
    }

    proof fn lemma_wf_bounds(&self) {
    }

    fn initialize_capacity(&mut self, tag: u128, acc: &mut ()) {
        let ghost before = self.state@;
        self.state.set(0, (tag % LIMB) as u64);
        self.state.set(1, ((tag / LIMB) % LIMB) as u64);
        self.state.set(2, (tag / LIMB_SQUARED) as u64);
        self.tag = tag;
        proof {
            assert(self.state@ =~= Self::spec_seed(tag) + before.skip(CAPACITY as int));
        }
    }

    fn read_rate_element(&mut self, offset: usize) -> (r: u64) {
        self.state[offset + CAPACITY]
    }

    fn add_rate_element(&mut self, offset: usize, x: &u64) {
        self.state.set(offset + CAPACITY, *x);
    }

    fn permute(&mut self, acc: &mut ()) {
        let ghost before = self.state@;
        let n = self.state.len();
        let mut total: u64 = 0;
        let mut i: usize = 0;
        while i < n
            invariant
                n == self.state@.len(),
                self.state@ == before,
                0 <= i <= n,
                total == sum_mod(before, i as int),
            decreases n - i,
        {
            total = (total + self.state[i] % FIELD_MODULUS) % FIELD_MODULUS;
            i = i + 1;
        }
        let ghost saved = *self;
        let mut j: usize = 0;
        while j < n
            invariant
                n == self.state@.len(),
                n == before.len(),
                n <= FIELD_MODULUS,
                0 <= j <= n,
                total == sum_mod(before, n as int),
                total < FIELD_MODULUS,
                forall|k: int| j <= k < n ==> #[trigger] self.state@[k] == before[k],
                forall|k: int| 0 <= k < j ==> #[trigger] self.state@[k] == mix(before)[k],
                self.rate == saved.rate,
                self.absorb_pos == saved.absorb_pos,
                self.squeeze_pos == saved.squeeze_pos,
                self.pattern == saved.pattern,
                self.io_count == saved.io_count,
                self.tag == saved.tag,
                self.permutations == saved.permutations,
                self.permutation_count == saved.permutation_count,
            decreases n - j,
        {
            let v = (self.state[j] % FIELD_MODULUS + total + (j as u64) + 1) % FIELD_MODULUS;
            proof {
                assert(v == mix_slot(before[j as int], total as int, j as int));
            }
            self.state.set(j, v);
            j = j + 1;
        }
        proof {
            assert(self.state@ == mix(before));
        }
        self.permutation_count = self.permutation_count.saturating_add(1);
        self.permutations = Ghost(self.permutations@ + 1);
    }

    fn rate(&self) -> (r: usize) {
        self.rate
    }

    fn absorb_pos(&self) -> (r: usize) {
        self.absorb_pos
    }

    fn squeeze_pos(&self) -> (r: usize) {
        self.squeeze_pos
    }

    fn set_absorb_pos(&mut self, pos: usize) {
        self.absorb_pos = pos;
    }

    fn set_squeeze_pos(&mut self, pos: usize) {
        self.squeeze_pos = pos;
    }

    fn add(a: u64, b: &u64) -> u64 {
        (a % FIELD_MODULUS + *b % FIELD_MODULUS) % FIELD_MODULUS
    }

    fn pattern(&self) -> (r: &IOPattern) {
        &self.pattern
    }

    fn set_pattern(&mut self, pattern: IOPattern) {
        let n = pattern.0.len();
        self.pattern = pattern;
        self.io_count = 0;
    }

    fn increment_io_count(&mut self) -> (r: usize) {
        let r = self.io_count;
        self.io_count = r + 1;
        r
    }

    fn zero() -> u64 {
        0
    }
}

} // verus!

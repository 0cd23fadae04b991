//! Sponge operations, I/O patterns and the 128-bit tag that binds a pattern.
use vstd::prelude::*;
use vstd::arithmetic::div_mod::{
    lemma_add_mod_noop,
    lemma_add_mod_noop_right,
    lemma_mul_mod_noop_left,
    lemma_fundamental_div_mod_converse_mod,
    lemma_mul_mod_noop,
    lemma_sub_mod_noop,
};

verus! {

/// Returned by `finish` when fewer operations were issued than declared.
#[derive(Debug, PartialEq, Eq, Structural)]
pub enum Error {
    ParameterUsageMismatch,
}

/// One declared step of an interaction: absorb or squeeze `n` elements.
#[derive(Clone, Copy, Debug, PartialEq, Eq, Structural)]
pub enum SpongeOp {
    Absorb(u32),
    Squeeze(u32),
}

/// The bit that marks the encoding of an absorb run.
pub const ABSORB_MARK: u32 = 0x8000_0000;

/// The base of the tag polynomial: the largest prime below 2^128, `2^128 - 159`.
pub const HASHER_BASE: u128 = 340282366920938463463374607431768211297;

/// 2^128: all tag arithmetic wraps modulo this.
pub open spec fn modulus() -> int {
    u128::MAX as int + 1
}

/// The count of an operation.
pub open spec fn count_of(op: SpongeOp) -> nat {
    match op {
        SpongeOp::Absorb(n) => n as nat,
        SpongeOp::Squeeze(n) => n as nat,
    }
}

/// Whether an operation absorbs.
pub open spec fn absorbs(op: SpongeOp) -> bool {
    op is Absorb
}

/// The maximal runs of same-kind operations, in order, each as
/// (absorbs, summed count). Zero-count runs are kept here.
pub open spec fn runs(ops: Seq<SpongeOp>) -> Seq<(bool, nat)>
    decreases ops.len(),
{
    if ops.len() == 0 {
        seq![]
    } else {
        let prev = runs(ops.drop_last());
        let o = ops.last();
        if prev.len() > 0 && prev.last().0 == absorbs(o) {
            prev.update(prev.len() - 1, (absorbs(o), prev.last().1 + count_of(o)))
        } else {
            prev.push((absorbs(o), count_of(o)))
        }
    }
}

/// The encoded value of a run: its count, with the absorb mark for absorb runs.
pub open spec fn run_value(r: (bool, nat)) -> int {
    if r.0 {
        r.1 + ABSORB_MARK
    } else {
        r.1 as int
    }
}

/// The encoded values of the runs with a non-zero count, in order.
pub open spec fn encode_runs(rs: Seq<(bool, nat)>) -> Seq<int>
    decreases rs.len(),
{
    if rs.len() == 0 {
        seq![]
    } else if rs.last().1 == 0 {
        encode_runs(rs.drop_last())
    } else {
        encode_runs(rs.drop_last()).push(run_value(rs.last()))
    }
}

/// `HASHER_BASE` to the power `n`, over the integers.
pub open spec fn base_pow(n: nat) -> int
    decreases n,
{
    if n == 0 {
        1
    } else {
        HASHER_BASE * base_pow((n - 1) as nat)
    }
}

/// The polynomial `sum over i of HASHER_BASE^(i+1) * s[i]`, over the integers.
pub open spec fn horner(s: Seq<int>) -> int
    decreases s.len(),
{
    if s.len() == 0 {
        0
    } else {
        horner(s.drop_last()) + base_pow(s.len()) * s.last()
    }
}

/// The tag of a pattern under a domain separator: the polynomial over the
/// encoded non-empty runs followed by the separator, modulo 2^128.
pub open spec fn tag_of(ops: Seq<SpongeOp>, domain_separator: u32) -> int {
    horner(encode_runs(runs(ops)).push(domain_separator as int)) % modulus()
}

/// Every run of the pattern has a count below the absorb mark, so that it
/// can be encoded.
pub open spec fn runs_bounded(ops: Seq<SpongeOp>) -> bool {
    forall|i: int| 0 <= i < runs(ops).len() ==> #[trigger] runs(ops)[i].1 < ABSORB_MARK
}

impl SpongeOp {
    /// The operation of the other kind, with count zero.
    pub fn reset(&self) -> (r: Self)
        ensures
            absorbs(r) != absorbs(*self),
            count_of(r) == 0,
    {
        match self {
            Self::Absorb(_) => Self::Squeeze(0),
            Self::Squeeze(_) => Self::Absorb(0),
        }
    }

    /// The operation's count.
    pub fn count(&self) -> (r: u32)
        ensures
            r == count_of(*self),
    {
        match self {
            Self::Absorb(n) => *n,
            Self::Squeeze(n) => *n,
        }
    }

    /// Whether the operation absorbs.
    pub fn is_absorb(&self) -> (r: bool)
        ensures
            r == absorbs(*self),
    {
        matches!(self, Self::Absorb(_))
    }

    /// Whether the operation squeezes.
    pub fn is_squeeze(&self) -> (r: bool)
        ensures
            r == !absorbs(*self),
    {
        matches!(self, Self::Squeeze(_))
    }

    /// The operation of the same kind whose count is the sum of both.
    pub fn combine(&self, other: Self) -> (r: Self)
        requires
            absorbs(*self) == absorbs(other),
            count_of(*self) + count_of(other) <= u32::MAX,
        ensures
            absorbs(r) == absorbs(*self),
            count_of(r) == count_of(*self) + count_of(other),
    {
        let c = other.count();
        match self {
            Self::Absorb(n) => Self::Absorb(*n + c),
            Self::Squeeze(n) => Self::Squeeze(*n + c),
        }
    }

    /// Whether both operations are of the same kind.
    pub fn matches(&self, other: Self) -> (r: bool)
        ensures
            r == (absorbs(*self) == absorbs(other)),
    {
        self.is_absorb() == other.is_absorb()
    }

    /// The encoded value: the count, with the absorb mark for an absorb.
    pub fn value(&self) -> (r: u32)
        requires
            count_of(*self) < ABSORB_MARK,
        ensures
            r == run_value((absorbs(*self), count_of(*self))),
    {
        match self {
            Self::Absorb(n) => *n + ABSORB_MARK,
            Self::Squeeze(n) => *n,
        }
    }
}

/// A declared sequence of sponge operations.
#[derive(Clone, Debug)]
pub struct IOPattern(pub Vec<SpongeOp>);

impl View for IOPattern {
    type V = Seq<SpongeOp>;

    open spec fn view(&self) -> Seq<SpongeOp> {
        self.0@
    }
}

impl IOPattern {
    /// The tag of this pattern under `domain_separator`.
    pub fn value(&self, domain_separator: u32) -> (r: u128)
        requires
            runs_bounded(self@),
        ensures
            r == tag_of(self@, domain_separator),
    {
        let mut hasher = Hasher::new();
        let mut i: usize = 0;
        while i < self.0.len()
            invariant
                0 <= i <= self@.len(),
                runs_bounded(self@),
                hasher.wf(),
                hasher.fed_ops() == self@.take(i as int),
            decreases self@.len() - i,
        {
            proof {
                lemma_runs_bounded_prefix(self@, i as int + 1);
                assert(self@.take(i as int + 1) == self@.take(i as int).push(self@[i as int]));
            }
            hasher.update_op(self.0[i]);
            i = i + 1;
        }
        proof {
            assert(self@.take(i as int) == self@);
        }
        hasher.finalize(domain_separator)
    }

    /// The operation declared at position `i`, if there is one.
    pub fn op_at(&self, i: usize) -> (r: Option<&SpongeOp>)
        ensures
            i < self@.len() ==> r == Some(&self@[i as int]),
            i >= self@.len() ==> r is None,
    {
        if i < self.0.len() {
            Some(&self.0[i])
        } else {
            None
        }
    }
}

/// The run still open after the given operations: the last run, or an empty
/// absorb run when there is none.
pub open spec fn pending_run(fed: Seq<SpongeOp>) -> (bool, nat) {
    if runs(fed).len() == 0 {
        (true, 0)
    } else {
        runs(fed).last()
    }
}

/// The runs already closed after the given operations.
pub open spec fn closed_runs(fed: Seq<SpongeOp>) -> Seq<(bool, nat)> {
    if runs(fed).len() == 0 {
        seq![]
    } else {
        runs(fed).drop_last()
    }
}

/// Computes `tag_of` one operation at a time, coalescing runs as it goes.
#[derive(Clone, Copy)]
pub struct Hasher {
    pub(crate) x: u128,
    pub(crate) x_i: u128,
    pub(crate) state: u128,
    pub(crate) current_op: SpongeOp,
    pub(crate) fed: Ghost<Seq<SpongeOp>>,
}

impl Default for Hasher {
    fn default() -> (r: Self)
        ensures
            r.wf(),
            r.fed_ops() == Seq::<SpongeOp>::empty(),
    {
        let r = Self {
            x: HASHER_BASE,
            x_i: 1,
            state: 0,
            current_op: SpongeOp::Absorb(0),
            fed: Ghost(Seq::empty()),
        };
        proof {
            assert(runs(r.fed@) == Seq::<(bool, nat)>::empty());
            assert(base_pow(0) == 1);
            assert(horner(Seq::<int>::empty()) == 0);
            assert(closed_runs(r.fed@) == Seq::<(bool, nat)>::empty());
            assert(pending_run(r.fed@) == (true, 0nat));
            lemma_fundamental_div_mod_converse_mod(1, modulus(), 0, 1);
            lemma_fundamental_div_mod_converse_mod(0, modulus(), 0, 0);
            assert(encode_runs(closed_runs(r.fed@)) == Seq::<int>::empty());
        }
        r
    }
}

impl Hasher {
    /// The operations fed so far.
    pub closed spec fn fed_ops(&self) -> Seq<SpongeOp> {
        self.fed@
    }

    /// The hasher holds the encoded closed runs of what it was fed, and the
    /// open run as its current operation.
    pub closed spec fn wf(&self) -> bool {
        let emitted = encode_runs(closed_runs(self.fed@));
        &&& self.x == HASHER_BASE
        &&& absorbs(self.current_op) == pending_run(self.fed@).0
        &&& count_of(self.current_op) == pending_run(self.fed@).1
        &&& self.x_i as int == base_pow(emitted.len()) % modulus()
        &&& self.state as int == horner(emitted) % modulus()
    }

    /// A hasher that has been fed nothing.
    pub(crate) fn new() -> (r: Self)
        ensures
            r.wf(),
            r.fed_ops() == Seq::<SpongeOp>::empty(),
    {
        Self::default()
    }

    /// Feeds one operation, extending the open run or closing it.
    pub(crate) fn update_op(&mut self, op: SpongeOp)
        requires
            old(self).wf(),
            runs_bounded(old(self).fed_ops().push(op)),
        ensures
            final(self).wf(),
            final(self).fed_ops() == old(self).fed_ops().push(op),
    {
        let ghost fed = self.fed@;
        let ghost fed2 = fed.push(op);
        proof {
            assert(fed2.drop_last() == fed);
            lemma_runs_bounded_drop_last(fed2);
            if runs(fed).len() > 0 {
                assert(runs(fed)[runs(fed).len() - 1].1 < ABSORB_MARK);
            }
        }
        if self.current_op.matches(op) {
            proof {
                if runs(fed).len() > 0 {
                    assert(runs(fed2).drop_last() == runs(fed).drop_last());
                } else {
                    assert(runs(fed2) == seq![(absorbs(op), count_of(op))]);
                    assert(runs(fed2).drop_last() == Seq::<(bool, nat)>::empty());
                }
                assert(runs(fed2)[runs(fed2).len() - 1].1 < ABSORB_MARK);
            }
            self.current_op = self.current_op.combine(op);
        } else {
            self.finish_op();
            proof {
                if runs(fed).len() > 0 {
                    assert(closed_runs(fed).push(pending_run(fed)) == runs(fed));
                } else {
                    assert(closed_runs(fed).push(pending_run(fed)).drop_last()
                        == Seq::<(bool, nat)>::empty());
                }
                assert(runs(fed2).drop_last() == runs(fed));
            }
            self.current_op = op;
        }
        self.fed = Ghost(fed2);
    }

    /// Emits the open run, unless its count is zero.
    pub(crate) fn finish_op(&mut self)
        requires
            old(self).wf(),
            pending_run(old(self).fed_ops()).1 < ABSORB_MARK,
        ensures
            final(self).x == old(self).x,
            final(self).current_op == old(self).current_op,
            final(self).fed_ops() == old(self).fed_ops(),
            ({
                let all = encode_runs(closed_runs(old(self).fed_ops()).push(pending_run(old(self).fed_ops())));
                &&& final(self).x_i as int == base_pow(all.len()) % modulus()
                &&& final(self).state as int == horner(all) % modulus()
            }),
    {
        let ghost closed = closed_runs(self.fed@);
        let ghost p = pending_run(self.fed@);
        proof {
            assert(closed.push(p).drop_last() == closed);
        }
        if self.current_op.count() == 0 {
            return ;
        }
        let op_value = self.current_op.value();
        proof {
            lemma_horner_step(self.x_i as int, self.state as int, encode_runs(closed), op_value as int);
        }
        self.update(op_value);
    }

    /// One step of the polynomial: the running power advances and `a` times
    /// it is added, both modulo 2^128.
    pub(crate) fn update(&mut self, a: u32)
        ensures
            final(self).x == old(self).x,
            final(self).current_op == old(self).current_op,
            final(self).fed_ops() == old(self).fed_ops(),
            final(self).x_i as int == (old(self).x_i as int * old(self).x as int) % modulus(),
            final(self).state as int == (old(self).state as int + final(self).x_i as int * a as int)
                % modulus(),
    {
        self.x_i = self.x_i.wrapping_mul(self.x);
        let t = self.x_i.wrapping_mul(a as u128);
        proof {
            let s = self.state as int;
            let xa = self.x_i as int * a as int;
            assert(t as int == xa % modulus());
            if s + t < modulus() {
                lemma_fundamental_div_mod_converse_mod(s + t, modulus(), 0, s + t);
            } else {
                lemma_fundamental_div_mod_converse_mod(s + t, modulus(), 1, s + t - modulus());
            }
            lemma_add_mod_noop_right(s, xa, modulus());
        }
        self.state = self.state.wrapping_add(t);
    }

    /// Closes the open run, appends the domain separator and returns the tag.
    pub(crate) fn finalize(&mut self, domain_separator: u32) -> (r: u128)
        requires
            old(self).wf(),
            runs_bounded(old(self).fed_ops()),
        ensures
            r == tag_of(old(self).fed_ops(), domain_separator),
    {
        let ghost fed = self.fed@;
        proof {
            if runs(fed).len() > 0 {
                assert(runs(fed)[runs(fed).len() - 1].1 < ABSORB_MARK);
                assert(closed_runs(fed).push(pending_run(fed)) == runs(fed));
            } else {
                assert(closed_runs(fed).push(pending_run(fed)).drop_last()
                    == Seq::<(bool, nat)>::empty());
            }
        }
        self.finish_op();
        proof {
            lemma_horner_step(self.x_i as int, self.state as int, encode_runs(runs(fed)),
                domain_separator as int);
        }
        self.update(domain_separator);
        self.state
    }
}

/// The empty pattern under domain separator zero has tag zero.
pub proof fn lemma_empty_pattern_zero_tag()
    ensures
        tag_of(Seq::<SpongeOp>::empty(), 0) == 0,
{
    lemma_empty_pattern_tag(0);
    lemma_fundamental_div_mod_converse_mod(0, modulus(), 0, 0);
}

/// The tag of the empty pattern is one hasher step from the initial state
/// applied to the domain separator alone, whatever the separator.
pub proof fn lemma_empty_pattern_tag(domain_separator: u32)
    ensures
        tag_of(Seq::<SpongeOp>::empty(), domain_separator) == (0 + ((1 * HASHER_BASE) % modulus())
            * domain_separator) % modulus(),
{
    let e = seq![domain_separator as int];
    assert(runs(Seq::<SpongeOp>::empty()) == Seq::<(bool, nat)>::empty());
    assert(encode_runs(Seq::<(bool, nat)>::empty()).push(domain_separator as int) == e);
    assert(e.drop_last() == Seq::<int>::empty());
    assert(base_pow(1) == HASHER_BASE * base_pow(0));
    assert(base_pow(0) == 1);
    assert(horner(Seq::<int>::empty()) == 0);
    assert(e.last() == domain_separator as int);
    assert(horner(e) == HASHER_BASE * domain_separator);
    lemma_fundamental_div_mod_converse_mod(HASHER_BASE as int, modulus(), 0, HASHER_BASE as int);
}

/// Two adjacent absorbs tag as one absorb of their summed count.
pub proof fn lemma_adjacent_absorbs_coalesce(a: u32, b: u32, domain_separator: u32)
    requires
        a + b < ABSORB_MARK,
    ensures
        tag_of(seq![SpongeOp::Absorb(a), SpongeOp::Absorb(b)], domain_separator) == tag_of(
            seq![SpongeOp::Absorb((a + b) as u32)],
            domain_separator,
        ),
{
    let two = seq![SpongeOp::Absorb(a), SpongeOp::Absorb(b)];
    let one = seq![SpongeOp::Absorb((a + b) as u32)];
    assert(two.drop_last() == seq![SpongeOp::Absorb(a)]);
    assert(seq![SpongeOp::Absorb(a)].drop_last() == Seq::<SpongeOp>::empty());
    assert(one.drop_last() == Seq::<SpongeOp>::empty());
    assert(runs(Seq::<SpongeOp>::empty()) =~= Seq::<(bool, nat)>::empty());
    assert(seq![SpongeOp::Absorb(a)].last() == SpongeOp::Absorb(a));
    assert(runs(seq![SpongeOp::Absorb(a)]) =~= seq![(true, a as nat)]);
    assert(runs(two) =~= seq![(true, (a + b) as nat)]);
    assert(runs(one) =~= seq![(true, (a + b) as nat)]);
}

/// Splitting each run of a two-run pattern in two leaves the tag unchanged.
pub proof fn lemma_split_runs_same_tag()
    ensures
        tag_of(
            seq![
                SpongeOp::Absorb(1),
                SpongeOp::Absorb(1),
                SpongeOp::Squeeze(1),
                SpongeOp::Squeeze(1),
            ],
            0,
        ) == tag_of(seq![SpongeOp::Absorb(2), SpongeOp::Squeeze(2)], 0),
{
    let four = seq![
        SpongeOp::Absorb(1),
        SpongeOp::Absorb(1),
        SpongeOp::Squeeze(1),
        SpongeOp::Squeeze(1),
    ];
    let two = seq![SpongeOp::Absorb(2), SpongeOp::Squeeze(2)];
    let a1 = seq![SpongeOp::Absorb(1)];
    let a11 = seq![SpongeOp::Absorb(1), SpongeOp::Absorb(1)];
    let a11s = seq![SpongeOp::Absorb(1), SpongeOp::Absorb(1), SpongeOp::Squeeze(1)];
    assert(four.drop_last() == a11s);
    assert(a11s.drop_last() == a11);
    assert(a11.drop_last() == a1);
    assert(a1.drop_last() == Seq::<SpongeOp>::empty());
    assert(two.drop_last() == seq![SpongeOp::Absorb(2)]);
    assert(seq![SpongeOp::Absorb(2)].drop_last() == Seq::<SpongeOp>::empty());
    assert(runs(Seq::<SpongeOp>::empty()) =~= Seq::<(bool, nat)>::empty());
    assert(a1.last() == SpongeOp::Absorb(1));
    assert(runs(a1) =~= seq![(true, 1nat)]);
    assert(runs(a11) =~= seq![(true, 2nat)]);
    assert(runs(a11s) =~= seq![(true, 2nat), (false, 1nat)]);
    assert(runs(four) =~= seq![(true, 2nat), (false, 2nat)]);
    assert(runs(seq![SpongeOp::Absorb(2)]) =~= seq![(true, 2nat)]);
    assert(runs(two) =~= seq![(true, 2nat), (false, 2nat)]);
}

/// The multiplicative inverse of `HASHER_BASE` modulo 2^128.
pub open spec fn base_inverse() -> int {
    104866892950477891256008526818595234977
}

/// `base_inverse()` to the power `n`, over the integers.
pub open spec fn inverse_pow(n: nat) -> int
    decreases n,
{
    if n == 0 {
        1
    } else {
        base_inverse() * inverse_pow((n - 1) as nat)
    }
}

proof fn lemma_pow_inverse(n: nat)
    ensures
        (base_pow(n) * inverse_pow(n)) % modulus() == 1,
    decreases n,
{
    let m = modulus();
    if n == 0 {
        lemma_fundamental_div_mod_converse_mod(1, m, 0, 1);
    } else {
        lemma_pow_inverse((n - 1) as nat);
        let p = base_pow((n - 1) as nat);
        let q = inverse_pow((n - 1) as nat);
        let bi = HASHER_BASE * base_inverse();
        lemma_fundamental_div_mod_converse_mod(bi, m, 104866892950477891256008526818595234928, 1);
        assert((HASHER_BASE * p) * (base_inverse() * q) == bi * (p * q)) by (nonlinear_arith)
            requires
                bi == HASHER_BASE * base_inverse(),
        ;
        lemma_mul_mod_noop(bi, p * q, m);
        lemma_fundamental_div_mod_converse_mod(1, m, 0, 1);
    }
}

/// Two domain separators that differ give different tags, on every pattern.
pub proof fn lemma_distinct_separators_distinct_tags(ops: Seq<SpongeOp>, d1: u32, d2: u32)
    requires
        d1 != d2,
    ensures
        tag_of(ops, d1) != tag_of(ops, d2),
{
    let m = modulus();
    let e = encode_runs(runs(ops));
    let k = (e.len() + 1) as nat;
    let h = horner(e);
    let p = base_pow(k);
    let q = inverse_pow(k);
    let x = h + p * d1;
    let y = h + p * d2;
    assert(e.push(d1 as int).drop_last() == e);
    assert(e.push(d2 as int).drop_last() == e);
    assert(tag_of(ops, d1) == x % m);
    assert(tag_of(ops, d2) == y % m);
    if x % m == y % m {
        lemma_pow_inverse(k);
        lemma_mul_mod_noop_left(x, q, m);
        lemma_mul_mod_noop_left(y, q, m);
        assert(x * q == h * q + (p * q) * d1) by (nonlinear_arith)
            requires
                x == h + p * d1,
        ;
        assert(y * q == h * q + (p * q) * d2) by (nonlinear_arith)
            requires
                y == h + p * d2,
        ;
        lemma_mul_mod_noop_left(p * q, d1 as int, m);
        lemma_mul_mod_noop_left(p * q, d2 as int, m);
        lemma_add_mod_noop_right(h * q, (p * q) * d1, m);
        lemma_add_mod_noop_right(h * q, (p * q) * d2, m);
        assert((h * q + d1) % m == (h * q + d2) % m);
        lemma_sub_mod_noop(h * q + d1, h * q + d2, m);
        lemma_fundamental_div_mod_converse_mod(0, m, 0, 0);
        if d1 > d2 {
            lemma_fundamental_div_mod_converse_mod(d1 - d2, m, 0, d1 - d2);
        } else {
            lemma_fundamental_div_mod_converse_mod(d1 - d2, m, -1, m + d1 - d2);
        }
    }
}

/// One wrapping step of the hasher computes the next polynomial modulo 2^128.
proof fn lemma_horner_step(x_i: int, state: int, e: Seq<int>, a: int)
    requires
        x_i == base_pow(e.len()) % modulus(),
        state == horner(e) % modulus(),
    ensures
        (x_i * HASHER_BASE) % modulus() == base_pow(e.len() + 1) % modulus(),
        (state + ((x_i * HASHER_BASE) % modulus()) * a) % modulus() == horner(e.push(a))
            % modulus(),
{
    let m = modulus();
    let p = base_pow(e.len());
    assert(e.push(a).drop_last() == e);
    assert(base_pow(e.len() + 1) == HASHER_BASE * p);
    lemma_mul_mod_noop_left(p, HASHER_BASE as int, m);
    let q = base_pow(e.len() + 1);
    lemma_mul_mod_noop_left(q, a, m);
    lemma_add_mod_noop(horner(e), q * a, m);
    lemma_add_mod_noop_right(state, (q % m) * a, m);
    lemma_add_mod_noop(state, (q % m) * a, m);
}

proof fn lemma_runs_bounded_drop_last(ops: Seq<SpongeOp>)
    requires
        ops.len() > 0,
        runs_bounded(ops),
    ensures
        runs_bounded(ops.drop_last()),
{
    let prev = runs(ops.drop_last());
    assert forall|i: int| 0 <= i < prev.len() implies #[trigger] prev[i].1 < ABSORB_MARK by {
        assert(runs(ops)[i].1 < ABSORB_MARK);
    }
}

proof fn lemma_runs_bounded_prefix(ops: Seq<SpongeOp>, n: int)
    requires
        0 <= n <= ops.len(),
        runs_bounded(ops),
    ensures
        runs_bounded(ops.take(n)),
    decreases ops.len() - n,
{
    if n < ops.len() {
        lemma_runs_bounded_prefix(ops, n + 1);
        lemma_runs_bounded_drop_last(ops.take(n + 1));
        assert(ops.take(n + 1).drop_last() == ops.take(n));
    } else {
        assert(ops.take(n) == ops);
    }
}

} // verus!

//! The simulation state of one run, its invariant, and the mathematical model of
//! how registers travel through the operator string.
use vstd::prelude::*;
use prng_mt::mt19937::MT19937;
use crate::acceptance::{Rational, Weights, weights_of, MAX_ORDER, MAX_SITES, DRAW_SCALE};
use crate::encoding::{Op, EMPTY, NULL_QUDIT, with_rx_toggled, with_rz_toggled};
use crate::rng::{prob_of, index_of, prob_of_word, index_of_word, qudit_of_word};

verus! {

/// Truncation order of a fresh model.
pub const INITIAL_ORDER: usize = 10;

/// Number of non-null slots of an operator string.
pub open spec fn count_ops(s: Seq<Op>) -> nat
    decreases s.len(),
{
    if s.len() == 0 {
        0
    } else {
        count_ops(s.drop_last()) + if s.last().is_null() {
            0nat
        } else {
            1nat
        }
    }
}

/// The registers after one operator has passed them.
pub open spec fn apply_op(op: Op, q: Seq<u8>) -> Seq<u8> {
    match op {
        Op::OffDiagSite(s) => q.update(s as int, with_rx_toggled(q[s as int])),
        Op::OffDiagBond(b) => q.update(b as int, with_rz_toggled(q[b as int])).update(
            b + 1,
            with_rz_toggled(q[b + 1]),
        ),
        _ => q,
    }
}

/// The registers just before slice `p`, starting from `q` at time zero.
pub open spec fn propagate(ops: Seq<Op>, q: Seq<u8>, p: nat) -> Seq<u8>
    decreases p,
{
    if p == 0 {
        q
    } else {
        apply_op(ops[p - 1], propagate(ops, q, (p - 1) as nat))
    }
}

/// The left snapshot of a slice holding `op` with registers `q`.
pub open spec fn snap_left(op: Op, q: Seq<u8>) -> u8 {
    match op {
        Op::Null => NULL_QUDIT,
        Op::DiagSite(s) => q[s as int],
        Op::OffDiagSite(s) => q[s as int],
        Op::DiagBond(b) => q[b as int],
        Op::OffDiagBond(b) => q[b as int],
    }
}

/// The right snapshot of a slice holding `op` with registers `q`.
pub open spec fn snap_right(op: Op, q: Seq<u8>) -> u8 {
    match op {
        Op::DiagBond(b) => q[b + 1],
        Op::OffDiagBond(b) => q[b + 1],
        _ => NULL_QUDIT,
    }
}

/// Left snapshots of the whole string: slice `p` sees the registers propagated to `p`.
pub open spec fn snapshots_left(ops: Seq<Op>, q: Seq<u8>) -> Seq<u8> {
    Seq::new(ops.len(), |p: int| snap_left(ops[p], propagate(ops, q, p as nat)))
}

/// Right snapshots of the whole string.
pub open spec fn snapshots_right(ops: Seq<Op>, q: Seq<u8>) -> Seq<u8> {
    Seq::new(ops.len(), |p: int| snap_right(ops[p], propagate(ops, q, p as nat)))
}

/// Two strings move registers in the same way: their off-diagonal operators agree.
pub open spec fn same_action(a: Seq<Op>, b: Seq<Op>) -> bool {
    &&& a.len() == b.len()
    &&& forall|p: int| 0 <= p < a.len() ==> #[trigger] a[p].action() == b[p].action()
}

/// Every register is one of the four Pauli values.
pub open spec fn registers_valid(q: Seq<u8>) -> bool {
    forall|s: int| 0 <= s < q.len() ==> #[trigger] q[s] < 4
}

/// The SSE configuration and work buffers of one run of the 1D open chain.
pub struct TFIModel {
    pub l: usize,
    pub beta: Rational,
    pub j: Rational,
    pub h: Rational,
    /// Number of non-null operators.
    pub n: usize,
    /// Truncation order: the length of the operator string.
    pub m: usize,
    pub num_sites: usize,
    pub num_bonds: usize,
    /// Bond `b` joins sites `b_sites[b].0` and `b_sites[b].1`.
    pub b_sites: Vec<(usize, usize)>,
    pub weights: Weights,
    pub rng: MT19937,
    /// The registers at time zero.
    pub qudits: Vec<u8>,
    /// Per slice, the registers that its operator acts on.
    pub left_qudits: Vec<u8>,
    pub right_qudits: Vec<u8>,
    pub op_string: Vec<Op>,
    pub v_first: Vec<i64>,
    pub v_last: Vec<i64>,
    pub vertex_list: Vec<i64>,
    /// Legs that wait to be processed while one cluster grows.
    pub stack: Vec<usize>,
    /// Label of the cluster that grows: `FLIPPED` or `NOT_FLIPPED`.
    pub flip: i64,
    /// Number of measurements since the last reset.
    pub samples: u64,
    /// Sum of the swap sign over the whole chain.
    pub purity: i64,
    /// Sum of the swap sign over the first half of the chain.
    pub partial_purity: i64,
    /// Sums of `Z_0 Z_s` and `X_0 X_s`.
    pub zz_corr_2: Vec<i64>,
    pub xx_corr_2: Vec<i64>,
}

pub open spec fn abs_le(x: int, bound: int) -> bool {
    -bound <= x <= bound
}

impl TFIModel {
    /// The chain, its couplings and the sizes of all buffers agree.
    pub open spec fn shape_ok(&self) -> bool {
        &&& 1 <= self.num_sites <= MAX_SITES
        &&& self.l == self.num_sites
        &&& self.num_bonds == self.num_sites - 1
        &&& self.b_sites@.len() == self.num_bonds
        &&& forall|b: int|
            0 <= b < self.num_bonds ==> #[trigger] self.b_sites@[b] == (b as usize, (b + 1) as usize)
        &&& self.beta.valid() && self.j.valid() && self.h.valid()
        &&& self.weights == weights_of(self.beta, self.j, self.h, self.num_sites as nat)
        &&& self.weights.bounded()
        &&& self.num_bonds > 0 || self.weights.field > 0
        &&& 0 < self.m <= MAX_ORDER
        &&& self.op_string@.len() == self.m
        &&& self.qudits@.len() == self.num_sites
        &&& self.left_qudits@.len() == self.m
        &&& self.right_qudits@.len() == self.m
        &&& self.vertex_list@.len() == 4 * self.m
        &&& self.v_first@.len() == self.num_sites
        &&& self.v_last@.len() == self.num_sites
        &&& self.zz_corr_2@.len() == self.num_sites
        &&& self.xx_corr_2@.len() == self.num_sites
    }

    /// The invariant of every reachable state.
    pub open spec fn wf(&self) -> bool {
        &&& self.shape_ok()
        &&& self.n == count_ops(self.op_string@)
        &&& forall|p: int| 0 <= p < self.m ==> (#[trigger] self.op_string@[p]).fits(self.num_sites as nat)
        &&& registers_valid(self.qudits@)
        &&& self.accumulators_ok()
    }

    /// Every accumulated value is a sum of `samples` signs.
    pub open spec fn accumulators_ok(&self) -> bool {
        &&& self.samples <= i64::MAX
        &&& abs_le(self.purity as int, self.samples as int)
        &&& abs_le(self.partial_purity as int, self.samples as int)
        &&& forall|s: int|
            0 <= s < self.zz_corr_2@.len() ==> abs_le(#[trigger] self.zz_corr_2@[s] as int, self.samples as int)
        &&& forall|s: int|
            0 <= s < self.xx_corr_2@.len() ==> abs_le(#[trigger] self.xx_corr_2@[s] as int, self.samples as int)
    }

    /// The state `new` hands back, before `init` sizes the buffers.
    pub open spec fn fresh(&self) -> bool {
        &&& 1 <= self.num_sites <= MAX_SITES
        &&& self.l == self.num_sites
        &&& self.beta.valid() && self.j.valid() && self.h.valid()
        &&& self.num_sites >= 2 || self.h.num > 0
        &&& self.n == 0
        &&& self.m == INITIAL_ORDER
        &&& self.samples == 0 && self.purity == 0 && self.partial_purity == 0
        &&& self.zz_corr_2@ == Seq::new(self.num_sites as nat, |s: int| 0i64)
        &&& self.xx_corr_2@ == Seq::new(self.num_sites as nat, |s: int| 0i64)
    }
}

/// Number of non-null slots never exceeds the length.
pub proof fn lemma_count_le_len(s: Seq<Op>)
    ensures
        count_ops(s) <= s.len(),
    decreases s.len(),
{
    if s.len() > 0 {
        lemma_count_le_len(s.drop_last());
    }
}

/// Replacing one slot changes the count by the change of that slot.
pub proof fn lemma_count_update(s: Seq<Op>, i: int, x: Op)
    requires
        0 <= i < s.len(),
    ensures
        count_ops(s.update(i, x)) + (if s[i].is_null() { 0int } else { 1int }) == count_ops(s) + (
        if x.is_null() {
            0int
        } else {
            1int
        }),
    decreases s.len(),
{
    let t = s.update(i, x);
    if i == s.len() - 1 {
        assert(t.drop_last() =~= s.drop_last());
    } else {
        assert(t.drop_last() =~= s.drop_last().update(i, x));
        lemma_count_update(s.drop_last(), i, x);
    }
}

/// Appending null slots keeps the count.
pub proof fn lemma_count_null_suffix(s: Seq<Op>, k: nat)
    ensures
        count_ops(s + Seq::new(k, |i: int| Op::Null)) == count_ops(s),
    decreases k,
{
    let t = s + Seq::new(k, |i: int| Op::Null);
    if k > 0 {
        assert(t.drop_last() =~= s + Seq::new((k - 1) as nat, |i: int| Op::Null));
        lemma_count_null_suffix(s, (k - 1) as nat);
    } else {
        assert(t =~= s);
    }
}

/// In every state that the public operations reach, `n` is the number of
/// non-null slots of the operator string, and at most its length `m`.
pub proof fn lemma_operator_count(model: &TFIModel)
    requires
        model.wf(),
    ensures
        model.n == count_ops(model.op_string@),
        model.n <= model.m,
{
    lemma_count_le_len(model.op_string@);
}

/// In every reachable state each register is one of the four Pauli values,
/// and every accumulated estimator is a sum of `samples` signs, so its
/// average over the samples lies in `[-1, 1]`.
pub proof fn lemma_values_bounded(model: &TFIModel)
    requires
        model.wf(),
    ensures
        forall|s: int| 0 <= s < model.num_sites ==> #[trigger] model.qudits@[s] < 4,
        -(model.samples as int) <= model.purity <= model.samples,
        -(model.samples as int) <= model.partial_purity <= model.samples,
        forall|s: int|
            0 <= s < model.num_sites ==> -(model.samples as int) <= #[trigger] model.zz_corr_2@[s]
                <= model.samples,
        forall|s: int|
            0 <= s < model.num_sites ==> -(model.samples as int) <= #[trigger] model.xx_corr_2@[s]
                <= model.samples,
{
    assert forall|s: int| 0 <= s < model.num_sites implies -(model.samples as int) <= #[trigger] model.zz_corr_2@[s]
        <= model.samples by {
        assert(abs_le(model.zz_corr_2@[s] as int, model.samples as int));
    }
    assert forall|s: int| 0 <= s < model.num_sites implies -(model.samples as int) <= #[trigger] model.xx_corr_2@[s]
        <= model.samples by {
        assert(abs_le(model.xx_corr_2@[s] as int, model.samples as int));
    }
}

/// Pads `v` with copies of `x` up to length `len`.
pub fn extend_with<T: Copy>(v: &mut Vec<T>, x: T, len: usize)
    requires
        old(v)@.len() <= len,
    ensures
        final(v)@ == old(v)@ + Seq::new((len - old(v)@.len()) as nat, |i: int| x),
{
    let ghost v0 = v@;
    let mut k: usize = v.len();
    while k < len
        invariant
            v0.len() <= k <= len,
            v@ == v0 + Seq::new((k - v0.len()) as nat, |i: int| x),
        decreases len - k,
    {
        v.push(x);
        k = k + 1;
        assert(v@ =~= v0 + Seq::new((k - v0.len()) as nat, |i: int| x));
    }
}

/// A vector of `n` copies of `x`.
pub fn filled<T: Copy>(x: T, n: usize) -> (v: Vec<T>)
    ensures
        v@ == Seq::new(n as nat, |i: int| x),
{
    let mut v: Vec<T> = Vec::with_capacity(n);
    let mut i: usize = 0;
    while i < n
        invariant
            i <= n,
            v@ == Seq::new(i as nat, |k: int| x),
        decreases n - i,
    {
        v.push(x);
        i = i + 1;
        assert(v@ =~= Seq::new(i as nat, |k: int| x));
    }
    v
}

impl TFIModel {
    /// A model of `para_l` sites, inverse temperature `para_beta`, coupling
    /// `para_j` and field `para_h`, seeded with `para_seed`; `init` completes it.
    pub fn new(para_l: usize, para_beta: Rational, para_j: Rational, para_h: Rational, para_seed: u32) -> (r: Self)
        requires
            1 <= para_l <= MAX_SITES,
            para_l >= 2 || para_h.num > 0,
            para_beta.valid(),
            para_j.valid(),
            para_h.valid(),
        ensures
            r.fresh(),
            r.num_sites == para_l,
            r.beta == para_beta,
            r.j == para_j,
            r.h == para_h,
    {
        TFIModel {
            l: para_l,
            beta: para_beta,
            j: para_j,
            h: para_h,
            n: 0,
            m: INITIAL_ORDER,
            num_sites: para_l,
            num_bonds: 0,
            b_sites: Vec::new(),
            weights: Weights { field: 0, bond: 0, add_num: 0, add_den: 1 },
            rng: MT19937::new(para_seed),
            qudits: Vec::new(),
            left_qudits: Vec::new(),
            right_qudits: Vec::new(),
            op_string: Vec::new(),
            v_first: Vec::new(),
            v_last: Vec::new(),
            vertex_list: Vec::new(),
            stack: Vec::new(),
            flip: 0,
            samples: 0,
            purity: 0,
            partial_purity: 0,
            zz_corr_2: filled(0i64, para_l),
            xx_corr_2: filled(0i64, para_l),
        }
    }

    /// Builds the chain, the weights and the empty configuration: all registers
    /// zero, an all-null operator string of the initial order.
    pub fn init(&mut self)
        requires
            old(self).fresh(),
        ensures
            final(self).wf(),
            final(self).num_sites == old(self).num_sites,
            final(self).beta == old(self).beta,
            final(self).j == old(self).j,
            final(self).h == old(self).h,
            final(self).m == INITIAL_ORDER,
            final(self).n == 0,
            final(self).op_string@ == Seq::new(INITIAL_ORDER as nat, |p: int| Op::Null),
            final(self).qudits@ == Seq::new(old(self).num_sites as nat, |s: int| 0u8),
            final(self).left_qudits@ == Seq::new(INITIAL_ORDER as nat, |p: int| NULL_QUDIT),
            final(self).right_qudits@ == Seq::new(INITIAL_ORDER as nat, |p: int| NULL_QUDIT),
            final(self).stack@.len() == 0,
            final(self).vertex_list@ == Seq::new(4 * INITIAL_ORDER as nat, |v: int| EMPTY),
            final(self).v_first@ == Seq::new(old(self).num_sites as nat, |s: int| EMPTY),
            final(self).v_last@ == Seq::new(old(self).num_sites as nat, |s: int| EMPTY),
    {
        self.num_bonds = self.l - 1;
        let mut lattice: Vec<(usize, usize)> = Vec::new();
        let mut i: usize = 0;
        while i < self.num_bonds
            invariant
                i <= self.num_bonds,
                lattice@.len() == i,
                forall|b: int| 0 <= b < i ==> #[trigger] lattice@[b] == (b as usize, (b + 1) as usize),
            decreases self.num_bonds - i,
        {
            lattice.push((i, i + 1));
            i = i + 1;
        }
        self.b_sites = lattice;
        self.weights = crate::acceptance::compute_weights(self.beta, self.j, self.h, self.num_sites);
        proof {
            if self.num_bonds == 0 {
                assert(self.num_sites == 1);
                assert(0 < self.h.num * self.j.den * 1 <= 0xFFFF * 0xFFFF) by (nonlinear_arith)
                    requires 0 < self.h.num <= 0xFFFF, 0 < self.j.den <= 0xFFFF;
                assert(self.weights.field > 0);
            }
        }
        self.qudits = filled(0u8, self.num_sites);
        self.left_qudits = filled(NULL_QUDIT, self.m);
        self.right_qudits = filled(NULL_QUDIT, self.m);
        self.op_string = filled(Op::Null, self.m);
        self.v_first = filled(EMPTY, self.num_sites);
        self.v_last = filled(EMPTY, self.num_sites);
        self.vertex_list = filled(EMPTY, 4 * self.m);
        self.stack = Vec::with_capacity(8 * self.m);
        proof {
            lemma_count_null_suffix(Seq::empty(), INITIAL_ORDER as nat);
            assert(self.op_string@ =~= Seq::empty() + Seq::new(INITIAL_ORDER as nat, |i: int| Op::Null));
        }
    }

    // ------------------------------------------------------------------
    //  The cluster-growth stack
    // ------------------------------------------------------------------

    /// Empties the stack.
    pub fn stack_initialize(&mut self)
        ensures
            final(self).stack@.len() == 0,
            *final(self) == (TFIModel { stack: final(self).stack, ..*old(self) }),
    {
        self.stack.clear();
    }

    /// Puts a leg on top of the stack.
    pub fn stack_push(&mut self, x: usize)
        ensures
            final(self).stack@ == old(self).stack@.push(x),
            *final(self) == (TFIModel { stack: final(self).stack, ..*old(self) }),
    {
        self.stack.push(x);
    }

    /// Takes the leg on top of the stack.
    pub fn stack_pop(&mut self) -> (r: usize)
        requires
            old(self).stack@.len() > 0,
        ensures
            r == old(self).stack@.last(),
            final(self).stack@ == old(self).stack@.drop_last(),
            *final(self) == (TFIModel { stack: final(self).stack, ..*old(self) }),
    {
        self.stack.pop().unwrap()
    }

    // ------------------------------------------------------------------
    //  Random draws
    // ------------------------------------------------------------------

    /// The next raw word of the generator.
    pub fn next_word(&mut self) -> (x: u32)
        ensures
            *final(self) == (TFIModel { rng: final(self).rng, ..*old(self) }),
    {
        self.rng.next()
    }

    /// A uniform probability draw, as the numerator `r` of `r / u32::MAX`:
    /// the next raw word modulo `u32::MAX`.
    pub fn rand_prob(&mut self) -> (r: u32)
        ensures
            exists|x: u32| r == prob_of(x),
            (r as u64) < DRAW_SCALE,
            *final(self) == (TFIModel { rng: final(self).rng, ..*old(self) }),
    {
        let x = self.next_word();
        prob_of_word(x)
    }

    /// A uniform bond index: the next raw word modulo the number of bonds.
    pub fn rand_bond(&mut self) -> (r: usize)
        requires
            old(self).num_bonds > 0,
        ensures
            exists|x: u32| r == index_of(x, old(self).num_bonds as nat),
            r < old(self).num_bonds,
            *final(self) == (TFIModel { rng: final(self).rng, ..*old(self) }),
    {
        let x = self.next_word();
        index_of_word(x, self.num_bonds)
    }

    /// A uniform site index: the next raw word modulo the number of sites.
    pub fn rand_site(&mut self) -> (r: usize)
        requires
            old(self).num_sites > 0,
        ensures
            exists|x: u32| r == index_of(x, old(self).num_sites as nat),
            r < old(self).num_sites,
            *final(self) == (TFIModel { rng: final(self).rng, ..*old(self) }),
    {
        let x = self.next_word();
        index_of_word(x, self.num_sites)
    }

    /// A uniform register value: the next raw word modulo 4.
    pub fn rand_qudit(&mut self) -> (r: u8)
        ensures
            exists|x: u32| r == index_of(x, 4),
            r < 4,
            *final(self) == (TFIModel { rng: final(self).rng, ..*old(self) }),
    {
        let x = self.next_word();
        qudit_of_word(x)
    }
}

} // verus!

//! The diagonal update, and the refresh of the per-slice register snapshots.
use vstd::prelude::*;
use crate::acceptance::{
    is_insertion_certain, does_insertion_accept, is_removal_certain, does_removal_accept,
    is_site_chosen, insertion_certain, insertion_accepts, removal_certain, removal_accepts,
    site_chosen, Weights, DRAW_SCALE, MAX_ORDER,
};
use crate::rng::prob_of_word;
use crate::measure::{purity_series, zz_series, xx_series};
use crate::encoding::{Op, NULL_QUDIT, toggle_field, toggle_interaction};
use crate::model::{
    TFIModel, count_ops, apply_op, propagate, snap_left, snap_right, snapshots_left,
    snapshots_right, same_action, registers_valid, lemma_count_update, lemma_count_le_len,
};

verus! {

/// What the diagonal update may do to one slot: keep it, fill a null slot with
/// a diagonal operator, or empty a diagonal one.
pub open spec fn diag_move(a: Op, b: Op) -> bool {
    ||| b == a
    ||| a.is_null() && b.is_diagonal()
    ||| a.is_diagonal() && b.is_null()
}

/// The decision at one slot, from the words drawn there: `free = m - n` null
/// slots before the decision, `a` the acceptance draw, `k` the draw that
/// chooses a site or a bond operator, `i` the raw word that picks its index.
///
/// A null slot is filled exactly when insertion is certain or accepted: with
/// `DiagSite(i % L)` when a site is chosen, else `DiagBond(i % (L - 1))`. A
/// diagonal operator is removed exactly when removal (over `free + 1` slots) is
/// certain or accepted. Off-diagonal operators always stay.
pub open spec fn slot_decision(w: Weights, op: Op, free: nat, ns: nat, a: nat, k: nat, i: nat) -> Op {
    if op.is_null() {
        if insertion_certain(w, free) || insertion_accepts(w, free, a) {
            if site_chosen(w, k) {
                Op::DiagSite((i % ns) as usize)
            } else {
                Op::DiagBond((i % ((ns - 1) as nat)) as usize)
            }
        } else {
            Op::Null
        }
    } else if op.is_diagonal() {
        if removal_certain(w, free + 1) || removal_accepts(w, free + 1, a) {
            Op::Null
        } else {
            op
        }
    } else {
        op
    }
}

/// `new_op` is the decision at the slot for some words the generator may draw.
pub open spec fn slot_reachable(w: Weights, op: Op, new_op: Op, free: nat, ns: nat) -> bool {
    exists|a: nat, k: nat, i: nat|
        a < DRAW_SCALE && k < DRAW_SCALE && i <= u32::MAX && #[trigger] slot_decision(w, op, free, ns, a, k, i)
            == new_op
}

/// The number of operators when slot `p` is reached: slots before `p` as they
/// were left, slots from `p` on as they were.
pub open spec fn count_at(before: Seq<Op>, after: Seq<Op>, p: int) -> nat {
    count_ops(after.subrange(0, p) + before.subrange(p, before.len() as int))
}

/// The slot decision on given words.
pub fn diag_slot_decision(
    w: &Weights,
    op: Op,
    free: usize,
    num_sites: usize,
    accept_draw: u32,
    kind_draw: u32,
    index_draw: u32,
) -> (r: Op)
    requires
        w.bounded(),
        free <= MAX_ORDER,
        num_sites >= 1,
        num_sites >= 2 || (w.field > 0 && w.bond == 0),
        (kind_draw as int) < DRAW_SCALE,
        op.fits(num_sites as nat),
    ensures
        r == slot_decision(*w, op, free as nat, num_sites as nat, accept_draw as nat, kind_draw as nat, index_draw as nat),
        r.fits(num_sites as nat),
{
    match op {
        Op::Null => {
            if is_insertion_certain(w, free) || does_insertion_accept(w, free, accept_draw) {
                proof {
                    if num_sites == 1 {
                        assert(kind_draw * (w.field + w.bond) < w.field * DRAW_SCALE) by (nonlinear_arith)
                            requires w.bond == 0, w.field > 0, (kind_draw as int) < DRAW_SCALE;
                    }
                }
                if is_site_chosen(w, kind_draw) {
                    Op::DiagSite(crate::rng::index_of_word(index_draw, num_sites))
                } else {
                    Op::DiagBond(crate::rng::index_of_word(index_draw, num_sites - 1))
                }
            } else {
                Op::Null
            }
        },
        Op::DiagSite(_) | Op::DiagBond(_) => {
            if is_removal_certain(w, free + 1) || does_removal_accept(w, free + 1, accept_draw) {
                Op::Null
            } else {
                op
            }
        },
        _ => op,
    }
}

/// Every reachable decision keeps, fills or empties the slot as the diagonal
/// update may, and a certain insertion or removal always happens.
pub proof fn lemma_slot_reachable(w: Weights, op: Op, new_op: Op, free: nat, ns: nat)
    requires
        slot_reachable(w, op, new_op, free, ns),
    ensures
        diag_move(op, new_op),
        op.is_null() && insertion_certain(w, free) ==> new_op.is_diagonal(),
        op.is_diagonal() && removal_certain(w, free + 1) ==> new_op.is_null(),
        op.is_off_diagonal() ==> new_op == op,
{
    let (a, k, i) = choose|a: nat, k: nat, i: nat|
        a < DRAW_SCALE && k < DRAW_SCALE && i <= u32::MAX && #[trigger] slot_decision(w, op, free, ns, a, k, i)
            == new_op;
}

/// One more slot decided: the decisions before it keep their counts, and the
/// new one was taken with the count of the string as it stood.
proof fn lemma_step_decided(
    ops0: Seq<Op>,
    before: Seq<Op>,
    after: Seq<Op>,
    p: int,
    w: Weights,
    ns: nat,
)
    requires
        0 <= p < ops0.len(),
        before.len() == ops0.len(),
        after == before.update(p, after[p]),
        forall|i: int| p <= i < ops0.len() ==> #[trigger] before[i] == ops0[i],
        slot_reachable(w, ops0[p], after[p], (ops0.len() - count_ops(before)) as nat, ns),
        forall|i: int|
            0 <= i < p ==> #[trigger] slot_reachable(
                w,
                ops0[i],
                before[i],
                (ops0.len() - count_at(ops0, before, i)) as nat,
                ns,
            ),
    ensures
        forall|i: int|
            0 <= i < p + 1 ==> #[trigger] slot_reachable(
                w,
                ops0[i],
                after[i],
                (ops0.len() - count_at(ops0, after, i)) as nat,
                ns,
            ),
{
    assert(before =~= before.subrange(0, p) + ops0.subrange(p, ops0.len() as int));
    assert(after.subrange(0, p) =~= before.subrange(0, p));
    assert forall|i: int| 0 <= i < p + 1 implies #[trigger] slot_reachable(
        w,
        ops0[i],
        after[i],
        (ops0.len() - count_at(ops0, after, i)) as nat,
        ns,
    ) by {
        if i < p {
            assert(after.subrange(0, i) =~= before.subrange(0, i));
            assert(count_at(ops0, after, i) == count_at(ops0, before, i));
            assert(after[i] == before[i]);
            assert(slot_reachable(w, ops0[i], before[i], (ops0.len() - count_at(ops0, before, i)) as nat, ns));
        } else {
            assert(after.subrange(0, p) + ops0.subrange(p, ops0.len() as int) =~= before);
        }
    }
}

/// Over a whole pass: a null slot whose insertion is certain with the count
/// then reached is filled, and a diagonal slot whose removal is certain is
/// emptied.
proof fn lemma_pass_certain(ops0: Seq<Op>, ops: Seq<Op>, w: Weights, ns: nat)
    requires
        ops.len() == ops0.len(),
        forall|i: int|
            0 <= i < ops0.len() ==> #[trigger] slot_reachable(
                w,
                ops0[i],
                ops[i],
                (ops0.len() - count_at(ops0, ops, i)) as nat,
                ns,
            ),
    ensures
        forall|p: int|
            0 <= p < ops0.len() && ops0[p].is_null() && insertion_certain(
                w,
                (ops0.len() - count_at(ops0, ops, p)) as nat,
            ) ==> (#[trigger] ops[p]).is_diagonal(),
        forall|p: int|
            0 <= p < ops0.len() && ops0[p].is_diagonal() && removal_certain(
                w,
                (ops0.len() - count_at(ops0, ops, p) + 1) as nat,
            ) ==> (#[trigger] ops[p]).is_null(),
{
    assert forall|p: int|
        0 <= p < ops0.len() && ops0[p].is_null() && insertion_certain(
            w,
            (ops0.len() - count_at(ops0, ops, p)) as nat,
        ) implies (#[trigger] ops[p]).is_diagonal() by {
        assert(slot_reachable(w, ops0[p], ops[p], (ops0.len() - count_at(ops0, ops, p)) as nat, ns));
        lemma_slot_reachable(w, ops0[p], ops[p], (ops0.len() - count_at(ops0, ops, p)) as nat, ns);
    }
    assert forall|p: int|
        0 <= p < ops0.len() && ops0[p].is_diagonal() && removal_certain(
            w,
            (ops0.len() - count_at(ops0, ops, p) + 1) as nat,
        ) implies (#[trigger] ops[p]).is_null() by {
        assert(slot_reachable(w, ops0[p], ops[p], (ops0.len() - count_at(ops0, ops, p)) as nat, ns));
        lemma_slot_reachable(w, ops0[p], ops[p], (ops0.len() - count_at(ops0, ops, p)) as nat, ns);
        assert((ops0.len() - count_at(ops0, ops, p)) as nat + 1 == (ops0.len() - count_at(ops0, ops, p) + 1) as nat) by {
            let c = ops.subrange(0, p) + ops0.subrange(p, ops0.len() as int);
            assert(c.len() == ops0.len());
            lemma_count_le_len(c);
        }
    }
}

/// Strings that agree on their off-diagonal operators move registers alike.
pub proof fn lemma_propagate_same_action(a: Seq<Op>, b: Seq<Op>, q: Seq<u8>, p: nat)
    requires
        p <= a.len(),
        same_action(a, b),
    ensures
        propagate(a, q, p) == propagate(b, q, p),
    decreases p,
{
    if p > 0 {
        lemma_propagate_same_action(a, b, q, (p - 1) as nat);
        let x = a[p - 1];
        let y = b[p - 1];
        assert(x.action() == y.action());
    }
}

/// Operators on existing sites keep registers valid.
pub proof fn lemma_apply_valid(op: Op, q: Seq<u8>)
    requires
        op.fits(q.len()),
        registers_valid(q),
    ensures
        registers_valid(apply_op(op, q)),
        apply_op(op, q).len() == q.len(),
{
}

proof fn lemma_null_slot_free(s: Seq<Op>, p: int)
    requires
        0 <= p < s.len(),
        s[p].is_null(),
    ensures
        count_ops(s) < s.len(),
{
    lemma_count_update(s, p, Op::DiagSite(0));
    lemma_count_le_len(s.update(p, Op::DiagSite(0)));
}

impl TFIModel {
    /// Draws the words that the decision at a slot holding `op` reads, in the
    /// order the engine consumes them, and returns the decision: an acceptance
    /// draw unless the move is certain, then, for an accepted insertion, a
    /// draw choosing site or bond and a raw word for its index. Off-diagonal
    /// operators draw nothing.
    fn decide_slot(&mut self, op: Op) -> (r: Op)
        requires
            old(self).wf(),
            op.fits(old(self).num_sites as nat),
            op.is_null() ==> old(self).n < old(self).m,
            !op.is_null() ==> old(self).n >= 1,
        ensures
            slot_reachable(
                old(self).weights,
                op,
                r,
                (old(self).m - old(self).n) as nat,
                old(self).num_sites as nat,
            ),
            r.fits(old(self).num_sites as nat),
            *final(self) == (TFIModel { rng: final(self).rng, ..*old(self) }),
    {
        proof {
            lemma_count_le_len(self.op_string@);
            if self.num_sites == 1 {
                assert(self.j.num * self.h.den * 0 == 0);
            }
        }
        let free = self.m - self.n;
        let w = self.weights;
        let mut a: u32 = 0;
        let mut k: u32 = 0;
        let mut i: u32 = 0;
        match op {
            Op::Null => {
                if !is_insertion_certain(&w, free) {
                    let x = self.next_word();
                    a = prob_of_word(x);
                }
                if is_insertion_certain(&w, free) || does_insertion_accept(&w, free, a) {
                    let x = self.next_word();
                    k = prob_of_word(x);
                    i = self.next_word();
                }
            },
            Op::DiagSite(_) | Op::DiagBond(_) => {
                if !is_removal_certain(&w, free + 1) {
                    let x = self.next_word();
                    a = prob_of_word(x);
                }
            },
            _ => {},
        }
        let r = diag_slot_decision(&w, op, free, self.num_sites, a, k, i);
        proof {
            assert(slot_decision(w, op, free as nat, self.num_sites as nat, a as nat, k as nat, i as nat) == r);
        }
        r
    }

    /// The snapshots of a slice holding `op` with the current registers.
    fn snapshot(&self, op: Op) -> (r: (u8, u8))
        requires
            self.shape_ok(),
            op.fits(self.num_sites as nat),
        ensures
            r == (snap_left(op, self.qudits@), snap_right(op, self.qudits@)),
    {
        match op {
            Op::Null => (NULL_QUDIT, NULL_QUDIT),
            Op::DiagSite(s) | Op::OffDiagSite(s) => (self.qudits[s], NULL_QUDIT),
            Op::DiagBond(b) | Op::OffDiagBond(b) => (self.qudits[self.b_sites[b].0], self.qudits[self.b_sites[b].1]),
        }
    }

    /// Moves the registers through `op`: an off-diagonal site operator toggles
    /// `r_x` of its site, an off-diagonal bond operator `r_z` of both its sites.
    fn apply_slot(&mut self, op: Op)
        requires
            old(self).wf(),
            op.fits(old(self).num_sites as nat),
        ensures
            final(self).wf(),
            final(self).qudits@ == apply_op(op, old(self).qudits@),
            *final(self) == (TFIModel { qudits: final(self).qudits, ..*old(self) }),
    {
        proof {
            lemma_apply_valid(op, self.qudits@);
        }
        match op {
            Op::OffDiagSite(the_site) => {
                // rz, rx --> rz, (rx + 1) mod 2
                let toggled = toggle_field(self.qudits[the_site]);
                self.qudits.set(the_site, toggled);
            },
            Op::OffDiagBond(the_bond) => {
                // rz, rx --> (rz + 1) mod 2, rx on both sites of the bond
                let s0 = self.b_sites[the_bond].0;
                let s1 = self.b_sites[the_bond].1;
                let t0 = toggle_interaction(self.qudits[s0]);
                self.qudits.set(s0, t0);
                let t1 = toggle_interaction(self.qudits[s1]);
                self.qudits.set(s1, t1);
            },
            _ => {},
        }
    }

    /// One slice of the diagonal update.
    fn diag_slice(&mut self, p: usize)
        requires
            old(self).wf(),
            p < old(self).m,
        ensures
            final(self).wf(),
            final(self).op_string@ == old(self).op_string@.update(p as int, final(self).op_string@[p as int]),
            slot_reachable(
                old(self).weights,
                old(self).op_string@[p as int],
                final(self).op_string@[p as int],
                (old(self).m - old(self).n) as nat,
                old(self).num_sites as nat,
            ),
            diag_move(old(self).op_string@[p as int], final(self).op_string@[p as int]),
            final(self).qudits@ == apply_op(old(self).op_string@[p as int], old(self).qudits@),
            final(self).left_qudits@ == old(self).left_qudits@.update(
                p as int,
                snap_left(final(self).op_string@[p as int], old(self).qudits@),
            ),
            final(self).right_qudits@ == old(self).right_qudits@.update(
                p as int,
                snap_right(final(self).op_string@[p as int], old(self).qudits@),
            ),
            *final(self) == (TFIModel {
                op_string: final(self).op_string,
                n: final(self).n,
                qudits: final(self).qudits,
                left_qudits: final(self).left_qudits,
                right_qudits: final(self).right_qudits,
                rng: final(self).rng,
                ..*old(self)
            }),
    {
        let ghost ops0 = self.op_string@;
        let op = self.op_string[p];
        proof {
            assert(op.fits(self.num_sites as nat));
            if op.is_null() {
                lemma_null_slot_free(ops0, p as int);
            } else {
                lemma_count_update(ops0, p as int, Op::Null);
            }
        }
        let new_op = self.decide_slot(op);
        proof {
            lemma_slot_reachable(self.weights, op, new_op, (self.m - self.n) as nat, self.num_sites as nat);
        }
        if op.is_null_op() && !new_op.is_null_op() {
            proof {
                lemma_count_update(ops0, p as int, new_op);
            }
            self.op_string.set(p, new_op);
            self.n = self.n + 1;
        } else if !op.is_null_op() && new_op.is_null_op() {
            self.op_string.set(p, Op::Null);
            self.n = self.n - 1;
        }
        proof {
            assert(self.op_string@[p as int] == new_op);
            assert(self.op_string@ =~= ops0.update(p as int, new_op));
            assert forall|i: int| 0 <= i < self.m implies (#[trigger] self.op_string@[i]).fits(
                self.num_sites as nat,
            ) by {
                if i != p {
                    assert(ops0[i].fits(self.num_sites as nat));
                }
            }
        }
        let (the_qudit_left, the_qudit_right) = self.snapshot(new_op);
        self.apply_slot(op);
        self.left_qudits.set(p, the_qudit_left);
        self.right_qudits.set(p, the_qudit_right);
    }

    /// One diagonal update over the whole operator string. Null slots may be
    /// filled and diagonal operators removed, with the acceptance rules of
    /// `acceptance`; off-diagonal operators stay and carry the registers along.
    /// Afterwards the registers have passed the whole string and each slice
    /// holds the snapshot of the registers it acts on.
    pub fn diag_update(&mut self)
        requires
            old(self).wf(),
        ensures
            final(self).wf(),
            forall|p: int|
                0 <= p < old(self).m ==> diag_move(
                    old(self).op_string@[p],
                    #[trigger] final(self).op_string@[p],
                ),
            forall|p: int|
                0 <= p < old(self).m ==> #[trigger] slot_reachable(
                    old(self).weights,
                    old(self).op_string@[p],
                    final(self).op_string@[p],
                    (old(self).m - count_at(old(self).op_string@, final(self).op_string@, p)) as nat,
                    old(self).num_sites as nat,
                ),
            forall|p: int|
                0 <= p < old(self).m && old(self).op_string@[p].is_null() && insertion_certain(
                    old(self).weights,
                    (old(self).m - count_at(old(self).op_string@, final(self).op_string@, p)) as nat,
                ) ==> (#[trigger] final(self).op_string@[p]).is_diagonal(),
            forall|p: int|
                0 <= p < old(self).m && old(self).op_string@[p].is_diagonal() && removal_certain(
                    old(self).weights,
                    (old(self).m - count_at(old(self).op_string@, final(self).op_string@, p) + 1) as nat,
                ) ==> (#[trigger] final(self).op_string@[p]).is_null(),
            same_action(old(self).op_string@, final(self).op_string@),
            final(self).qudits@ == propagate(
                final(self).op_string@,
                old(self).qudits@,
                old(self).m as nat,
            ),
            final(self).left_qudits@ == snapshots_left(final(self).op_string@, old(self).qudits@),
            final(self).right_qudits@ == snapshots_right(final(self).op_string@, old(self).qudits@),
            *final(self) == (TFIModel {
                op_string: final(self).op_string,
                n: final(self).n,
                qudits: final(self).qudits,
                left_qudits: final(self).left_qudits,
                right_qudits: final(self).right_qudits,
                rng: final(self).rng,
                ..*old(self)
            }),
    {
        let ghost ops0 = self.op_string@;
        let ghost q0 = self.qudits@;
        let mut p: usize = 0;
        while p < self.m
            invariant
                self.wf(),
                p <= self.m,
                ops0 == old(self).op_string@,
                q0 == old(self).qudits@,
                self.op_string@.len() == ops0.len(),
                forall|i: int| p <= i < self.m ==> #[trigger] self.op_string@[i] == ops0[i],
                forall|i: int|
                    0 <= i < p ==> #[trigger] slot_reachable(
                        self.weights,
                        ops0[i],
                        self.op_string@[i],
                        (ops0.len() - count_at(ops0, self.op_string@, i)) as nat,
                        self.num_sites as nat,
                    ),
                forall|i: int| 0 <= i < p ==> diag_move(ops0[i], #[trigger] self.op_string@[i]),
                self.qudits@ == propagate(ops0, q0, p as nat),
                forall|i: int|
                    0 <= i < p ==> #[trigger] self.left_qudits@[i] == snap_left(
                        self.op_string@[i],
                        propagate(ops0, q0, i as nat),
                    ),
                forall|i: int|
                    0 <= i < p ==> #[trigger] self.right_qudits@[i] == snap_right(
                        self.op_string@[i],
                        propagate(ops0, q0, i as nat),
                    ),
                *self == (TFIModel {
                    op_string: self.op_string,
                    n: self.n,
                    qudits: self.qudits,
                    left_qudits: self.left_qudits,
                    right_qudits: self.right_qudits,
                    rng: self.rng,
                    ..*old(self)
                }),
            decreases self.m - p,
        {
            let ghost before = self.op_string@;
            self.diag_slice(p);
            proof {
                lemma_step_decided(ops0, before, self.op_string@, p as int, self.weights, self.num_sites as nat);
            }
            p = p + 1;
        }
        proof {
            self.lemma_diag_result(ops0, q0);
            lemma_pass_certain(ops0, self.op_string@, self.weights, self.num_sites as nat);
        }
    }

    /// After a full pass the snapshots, seen through the untouched off-diagonal
    /// operators, are those of the new string.
    proof fn lemma_diag_result(&self, ops0: Seq<Op>, q0: Seq<u8>)
        requires
            self.op_string@.len() == ops0.len(),
            self.left_qudits@.len() == ops0.len(),
            self.right_qudits@.len() == ops0.len(),
            forall|i: int| 0 <= i < ops0.len() ==> diag_move(ops0[i], #[trigger] self.op_string@[i]),
            self.qudits@ == propagate(ops0, q0, ops0.len()),
            forall|i: int|
                0 <= i < ops0.len() ==> #[trigger] self.left_qudits@[i] == snap_left(
                    self.op_string@[i],
                    propagate(ops0, q0, i as nat),
                ),
            forall|i: int|
                0 <= i < ops0.len() ==> #[trigger] self.right_qudits@[i] == snap_right(
                    self.op_string@[i],
                    propagate(ops0, q0, i as nat),
                ),
        ensures
            same_action(ops0, self.op_string@),
            self.qudits@ == propagate(self.op_string@, q0, ops0.len()),
            self.left_qudits@ == snapshots_left(self.op_string@, q0),
            self.right_qudits@ == snapshots_right(self.op_string@, q0),
    {
        let ops = self.op_string@;
        assert forall|i: int| 0 <= i < ops0.len() implies #[trigger] ops0[i].action() == ops[i].action() by {
            assert(diag_move(ops0[i], ops[i]));
        }
        assert(same_action(ops0, ops));
        lemma_propagate_same_action(ops0, ops, q0, ops0.len());
        assert forall|i: int| 0 <= i < ops0.len() implies #[trigger] propagate(ops0, q0, i as nat)
            == propagate(ops, q0, i as nat) by {
            lemma_propagate_same_action(ops0, ops, q0, i as nat);
        }
        assert(self.left_qudits@ =~= snapshots_left(ops, q0));
        assert(self.right_qudits@ =~= snapshots_right(ops, q0));
    }
}


impl TFIModel {
    /// Recomputes every slice snapshot from the registers at time zero, moving
    /// the registers through the (unchanged) operator string.
    pub fn refresh_left_right_qudits(&mut self)
        requires
            old(self).wf(),
        ensures
            final(self).wf(),
            final(self).qudits@ == propagate(old(self).op_string@, old(self).qudits@, old(self).m as nat),
            final(self).left_qudits@ == snapshots_left(old(self).op_string@, old(self).qudits@),
            final(self).right_qudits@ == snapshots_right(old(self).op_string@, old(self).qudits@),
            *final(self) == (TFIModel {
                qudits: final(self).qudits,
                left_qudits: final(self).left_qudits,
                right_qudits: final(self).right_qudits,
                ..*old(self)
            }),
    {
        let ghost ops = self.op_string@;
        let ghost q0 = self.qudits@;
        let mut p: usize = 0;
        while p < self.m
            invariant
                self.wf(),
                p <= self.m,
                ops == self.op_string@,
                q0 == old(self).qudits@,
                self.qudits@ == propagate(ops, q0, p as nat),
                forall|i: int|
                    0 <= i < p ==> #[trigger] self.left_qudits@[i] == snap_left(ops[i], propagate(ops, q0, i as nat)),
                forall|i: int|
                    0 <= i < p ==> #[trigger] self.right_qudits@[i] == snap_right(ops[i], propagate(ops, q0, i as nat)),
                *self == (TFIModel {
                    qudits: self.qudits,
                    left_qudits: self.left_qudits,
                    right_qudits: self.right_qudits,
                    ..*old(self)
                }),
            decreases self.m - p,
        {
            let ghost qp = self.qudits@;
            let op = self.op_string[p];
            proof {
                assert(op.fits(self.num_sites as nat));
                lemma_apply_valid(op, qp);
            }
            let the_qudit_left: u8;
            let the_qudit_right: u8;
            match op {
                Op::Null => {
                    the_qudit_left = NULL_QUDIT;
                    the_qudit_right = NULL_QUDIT;
                },
                Op::DiagSite(the_site) => {
                    the_qudit_left = self.qudits[the_site];
                    the_qudit_right = NULL_QUDIT;
                },
                Op::DiagBond(the_bond) => {
                    the_qudit_left = self.qudits[self.b_sites[the_bond].0];
                    the_qudit_right = self.qudits[self.b_sites[the_bond].1];
                },
                Op::OffDiagSite(the_site) => {
                    the_qudit_left = self.qudits[the_site];
                    the_qudit_right = NULL_QUDIT;
                    let toggled = toggle_field(self.qudits[the_site]);
                    self.qudits.set(the_site, toggled);
                },
                Op::OffDiagBond(the_bond) => {
                    let s0 = self.b_sites[the_bond].0;
                    let s1 = self.b_sites[the_bond].1;
                    the_qudit_left = self.qudits[s0];
                    the_qudit_right = self.qudits[s1];
                    let t0 = toggle_interaction(self.qudits[s0]);
                    self.qudits.set(s0, t0);
                    let t1 = toggle_interaction(self.qudits[s1]);
                    self.qudits.set(s1, t1);
                },
            }
            self.left_qudits.set(p, the_qudit_left);
            self.right_qudits.set(p, the_qudit_right);
            p = p + 1;
        }
        assert(self.left_qudits@ =~= snapshots_left(ops, q0));
        assert(self.right_qudits@ =~= snapshots_right(ops, q0));
    }

    /// The diagonal update of a sampling sweep: before each slice's decision it
    /// takes one measurement of the registers at that imaginary time, then
    /// updates the slice as `diag_update` does.
    pub fn diag_update_with_measure(&mut self)
        requires
            old(self).wf(),
            old(self).samples + old(self).m <= i64::MAX,
        ensures
            final(self).wf(),
            final(self).samples == old(self).samples + old(self).m,
            final(self).purity == old(self).purity + purity_series(
                old(self).op_string@,
                old(self).qudits@,
                old(self).m as nat,
                old(self).num_sites as nat,
            ),
            final(self).partial_purity == old(self).partial_purity + purity_series(
                old(self).op_string@,
                old(self).qudits@,
                old(self).m as nat,
                (old(self).num_sites / 2) as nat,
            ),
            forall|s: int|
                0 <= s < old(self).num_sites ==> #[trigger] final(self).zz_corr_2@[s] == old(self).zz_corr_2@[s]
                    + zz_series(old(self).op_string@, old(self).qudits@, old(self).m as nat, s),
            forall|s: int|
                0 <= s < old(self).num_sites ==> #[trigger] final(self).xx_corr_2@[s] == old(self).xx_corr_2@[s]
                    + xx_series(old(self).op_string@, old(self).qudits@, old(self).m as nat, s),
            forall|p: int|
                0 <= p < old(self).m ==> diag_move(
                    old(self).op_string@[p],
                    #[trigger] final(self).op_string@[p],
                ),
            forall|p: int|
                0 <= p < old(self).m ==> #[trigger] slot_reachable(
                    old(self).weights,
                    old(self).op_string@[p],
                    final(self).op_string@[p],
                    (old(self).m - count_at(old(self).op_string@, final(self).op_string@, p)) as nat,
                    old(self).num_sites as nat,
                ),
            forall|p: int|
                0 <= p < old(self).m && old(self).op_string@[p].is_null() && insertion_certain(
                    old(self).weights,
                    (old(self).m - count_at(old(self).op_string@, final(self).op_string@, p)) as nat,
                ) ==> (#[trigger] final(self).op_string@[p]).is_diagonal(),
            forall|p: int|
                0 <= p < old(self).m && old(self).op_string@[p].is_diagonal() && removal_certain(
                    old(self).weights,
                    (old(self).m - count_at(old(self).op_string@, final(self).op_string@, p) + 1) as nat,
                ) ==> (#[trigger] final(self).op_string@[p]).is_null(),
            same_action(old(self).op_string@, final(self).op_string@),
            final(self).qudits@ == propagate(
                final(self).op_string@,
                old(self).qudits@,
                old(self).m as nat,
            ),
            final(self).left_qudits@ == snapshots_left(final(self).op_string@, old(self).qudits@),
            final(self).right_qudits@ == snapshots_right(final(self).op_string@, old(self).qudits@),
            *final(self) == (TFIModel {
                op_string: final(self).op_string,
                n: final(self).n,
                qudits: final(self).qudits,
                left_qudits: final(self).left_qudits,
                right_qudits: final(self).right_qudits,
                rng: final(self).rng,
                samples: final(self).samples,
                purity: final(self).purity,
                partial_purity: final(self).partial_purity,
                zz_corr_2: final(self).zz_corr_2,
                xx_corr_2: final(self).xx_corr_2,
                ..*old(self)
            }),
    {
        let ghost ops0 = self.op_string@;
        let ghost q0 = self.qudits@;
        let mut p: usize = 0;
        while p < self.m
            invariant
                self.wf(),
                p <= self.m,
                self.samples == old(self).samples + p,
                self.purity == old(self).purity + purity_series(ops0, q0, p as nat, self.num_sites as nat),
                self.partial_purity == old(self).partial_purity + purity_series(
                    ops0,
                    q0,
                    p as nat,
                    (self.num_sites / 2) as nat,
                ),
                forall|s: int|
                    0 <= s < self.num_sites ==> #[trigger] self.zz_corr_2@[s] == old(self).zz_corr_2@[s]
                        + zz_series(ops0, q0, p as nat, s),
                forall|s: int|
                    0 <= s < self.num_sites ==> #[trigger] self.xx_corr_2@[s] == old(self).xx_corr_2@[s]
                        + xx_series(ops0, q0, p as nat, s),
                old(self).samples + self.m <= i64::MAX,
                ops0 == old(self).op_string@,
                q0 == old(self).qudits@,
                self.op_string@.len() == ops0.len(),
                forall|i: int| p <= i < self.m ==> #[trigger] self.op_string@[i] == ops0[i],
                forall|i: int|
                    0 <= i < p ==> #[trigger] slot_reachable(
                        self.weights,
                        ops0[i],
                        self.op_string@[i],
                        (ops0.len() - count_at(ops0, self.op_string@, i)) as nat,
                        self.num_sites as nat,
                    ),
                forall|i: int| 0 <= i < p ==> diag_move(ops0[i], #[trigger] self.op_string@[i]),
                self.qudits@ == propagate(ops0, q0, p as nat),
                forall|i: int|
                    0 <= i < p ==> #[trigger] self.left_qudits@[i] == snap_left(
                        self.op_string@[i],
                        propagate(ops0, q0, i as nat),
                    ),
                forall|i: int|
                    0 <= i < p ==> #[trigger] self.right_qudits@[i] == snap_right(
                        self.op_string@[i],
                        propagate(ops0, q0, i as nat),
                    ),
                *self == (TFIModel {
                    op_string: self.op_string,
                    n: self.n,
                    qudits: self.qudits,
                    left_qudits: self.left_qudits,
                    right_qudits: self.right_qudits,
                    rng: self.rng,
                    samples: self.samples,
                    purity: self.purity,
                    partial_purity: self.partial_purity,
                    zz_corr_2: self.zz_corr_2,
                    xx_corr_2: self.xx_corr_2,
                    ..*old(self)
                }),
            decreases self.m - p,
        {
            let ghost pre = *self;
            self.measure();
            proof {
                assert forall|s: int| 0 <= s < self.num_sites implies #[trigger] self.zz_corr_2@[s]
                    == old(self).zz_corr_2@[s] + zz_series(ops0, q0, (p + 1) as nat, s) by {
                    assert(pre.zz_corr_2@[s] == old(self).zz_corr_2@[s] + zz_series(ops0, q0, p as nat, s));
                }
                assert forall|s: int| 0 <= s < self.num_sites implies #[trigger] self.xx_corr_2@[s]
                    == old(self).xx_corr_2@[s] + xx_series(ops0, q0, (p + 1) as nat, s) by {
                    assert(pre.xx_corr_2@[s] == old(self).xx_corr_2@[s] + xx_series(ops0, q0, p as nat, s));
                }
            }
            let ghost before = self.op_string@;
            self.diag_slice(p);
            proof {
                lemma_step_decided(ops0, before, self.op_string@, p as int, self.weights, self.num_sites as nat);
            }
            p = p + 1;
        }
        proof {
            self.lemma_diag_result(ops0, q0);
            lemma_pass_certain(ops0, self.op_string@, self.weights, self.num_sites as nat);
        }
    }
}

/// A diagonal update followed by a refresh reproduces the diagonal update's
/// snapshots, for registers that return to themselves over the whole string
/// (a periodic configuration): the update leaves the registers where they
/// started, so the refresh reads the same values slice by slice.
pub proof fn lemma_refresh_after_diagonal(before: Seq<Op>, after: Seq<Op>, q: Seq<u8>)
    requires
        before.len() == after.len(),
        forall|p: int| 0 <= p < before.len() ==> diag_move(before[p], #[trigger] after[p]),
        propagate(before, q, before.len()) == q,
    ensures
        propagate(after, q, after.len()) == q,
        snapshots_left(after, propagate(after, q, after.len())) == snapshots_left(after, q),
        snapshots_right(after, propagate(after, q, after.len())) == snapshots_right(after, q),
{
    assert forall|i: int| 0 <= i < before.len() implies #[trigger] before[i].action() == after[i].action() by {
        assert(diag_move(before[i], after[i]));
    }
    lemma_propagate_same_action(before, after, q, before.len());
}

} // verus!

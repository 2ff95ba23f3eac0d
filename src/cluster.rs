//! The loop (field) cluster update over the site vertex list.
use vstd::prelude::*;
use crate::acceptance::does_coin_flip;
use crate::encoding::{
    Op, EMPTY, FLIPPED, NOT_FLIPPED, FREE_SPIN, rx, rz, across, beside, with_rx_toggled, flip_operator, interaction_bit,
    toggle_field, time_partner_leg, neighbor_leg, to_back,
};
use crate::model::{TFIModel, lemma_count_update, registers_valid};

verus! {

/// Number of legs not yet processed (entries that still hold a partner).
pub open spec fn count_open(s: Seq<i64>) -> nat
    decreases s.len(),
{
    if s.len() == 0 {
        0
    } else {
        count_open(s.drop_last()) + if s.last() >= 0 {
            1nat
        } else {
            0nat
        }
    }
}

pub proof fn lemma_count_open_update(s: Seq<i64>, i: int, x: i64)
    requires
        0 <= i < s.len(),
    ensures
        count_open(s.update(i, x)) + (if s[i] >= 0 { 1int } else { 0int }) == count_open(s) + (if x
            >= 0 {
            1int
        } else {
            0int
        }),
    decreases s.len(),
{
    let t = s.update(i, x);
    if i == s.len() - 1 {
        assert(t.drop_last() =~= s.drop_last());
    } else {
        assert(t.drop_last() =~= s.drop_last().update(i, x));
        lemma_count_open_update(s.drop_last(), i, x);
    }
}

/// A leg that the loop cluster passes straight through: a diagonal bond
/// operator, or a diagonal site operator whose register has `r_z == 1`.
pub open spec fn field_transparent(ops: Seq<Op>, left: Seq<u8>, v: int) -> bool {
    let op = ops[v / 4];
    op is DiagBond || (op is DiagSite && rz(left[v / 4]) == 1)
}

/// A leg that a cluster passes straight through, in the site list or the dual list.
pub open spec fn leg_transparent(ops: Seq<Op>, left: Seq<u8>, right: Seq<u8>, dual: bool, v: int) -> bool {
    if dual {
        crate::bond_cluster::bond_transparent(ops, left, right, v)
    } else {
        field_transparent(ops, left, v)
    }
}

/// Where a chain goes on from a leg it reached: across the slice in the site
/// list, to the leg's back in the dual list.
pub open spec fn chain_step(dual: bool, v: int) -> int {
    if dual {
        beside(v)
    } else {
        across(v)
    }
}

/// The walk from leg `v0`: its partner if that is not transparent, else on
/// from the partner's step, for at most `fuel` more steps; `EMPTY` when the
/// walk meets a mark or runs out.
pub open spec fn walk_from(
    vl: Seq<i64>,
    ops: Seq<Op>,
    left: Seq<u8>,
    right: Seq<u8>,
    dual: bool,
    v0: int,
    fuel: nat,
) -> i64
    decreases fuel,
{
    if !(0 <= v0 < vl.len()) || vl[v0] < 0 {
        EMPTY
    } else if !leg_transparent(ops, left, right, dual, vl[v0] as int) {
        vl[v0]
    } else if fuel == 0 {
        EMPTY
    } else {
        walk_from(vl, ops, left, right, dual, chain_step(dual, vl[v0] as int), (fuel - 1) as nat)
    }
}

/// The label walk from leg `v0` of a chain that starts at `v`: the first
/// processed leg decides (`FLIPPED` or not); going on through the partner of
/// the step of each unprocessed leg, the walk gives `false` when it meets an
/// unlinked leg, runs out of `fuel`, or comes back to `v`.
pub open spec fn label_walk(vl: Seq<i64>, dual: bool, v: int, v0: int, fuel: nat) -> bool
    decreases fuel,
{
    if !(0 <= v0 < vl.len()) {
        false
    } else if vl[v0] < 0 {
        vl[v0] == FLIPPED
    } else {
        let nl = chain_step(dual, v0);
        if !(0 <= nl < vl.len()) || vl[nl] < 0 || fuel == 0 || vl[nl] == v {
            false
        } else {
            label_walk(vl, dual, v, vl[nl] as int, (fuel - 1) as nat)
        }
    }
}

/// `q` with its field bit toggled when `c` holds.
pub open spec fn rx_toggled_if(c: bool, q: u8) -> u8 {
    if c {
        with_rx_toggled(q)
    } else {
        q
    }
}

/// `s` with `x` pushed when `c` holds.
pub open spec fn push_if(s: Seq<usize>, c: bool, x: int) -> Seq<usize> {
    if c {
        s.push(x as usize)
    } else {
        s
    }
}

/// The operator at slot `p` may not flip in this update: a diagonal site
/// operator with `r_z == 1` (site list), or a diagonal bond operator whose
/// registers differ in `r_x` (dual list).
pub open spec fn frozen(ops: Seq<Op>, left: Seq<u8>, right: Seq<u8>, dual: bool, p: int) -> bool {
    if dual {
        ops[p] is DiagBond && rx(left[p]) != rx(right[p])
    } else {
        ops[p] is DiagSite && rz(left[p]) == 1
    }
}

/// No leg of `s` sits at a slot that may not flip.
pub open spec fn stack_free(s: Seq<usize>, ops0: Seq<Op>, left: Seq<u8>, right: Seq<u8>, dual: bool) -> bool {
    forall|i: int| 0 <= i < s.len() ==> !frozen(ops0, left, right, dual, (#[trigger] s[i]) as int / 4)
}

proof fn lemma_push_if_free(s: Seq<usize>, c: bool, x: int, ops0: Seq<Op>, left: Seq<u8>, right: Seq<u8>, dual: bool)
    requires
        stack_free(s, ops0, left, right, dual),
        c ==> 0 <= x <= usize::MAX && !frozen(ops0, left, right, dual, x / 4),
    ensures
        stack_free(push_if(s, c, x), ops0, left, right, dual),
{
    if c {
        assert forall|i: int| 0 <= i < push_if(s, c, x).len() implies !frozen(
            ops0,
            left,
            right,
            dual,
            (#[trigger] push_if(s, c, x)[i]) as int / 4,
        ) by {
            if i < s.len() {
                assert(push_if(s, c, x)[i] == s[i]);
            }
        }
    }
}

/// A walk ends on a leg that is not transparent.
pub proof fn lemma_walk_end(
    vl: Seq<i64>,
    ops: Seq<Op>,
    left: Seq<u8>,
    right: Seq<u8>,
    dual: bool,
    v0: int,
    fuel: nat,
)
    requires
        forall|x: int| 0 <= x < vl.len() ==> #[trigger] vl[x] < vl.len(),
    ensures
        walk_from(vl, ops, left, right, dual, v0, fuel) < vl.len(),
        walk_from(vl, ops, left, right, dual, v0, fuel) >= 0 ==> !leg_transparent(
            ops,
            left,
            right,
            dual,
            walk_from(vl, ops, left, right, dual, v0, fuel) as int,
        ),
    decreases fuel,
{
    if 0 <= v0 < vl.len() && vl[v0] >= 0 && leg_transparent(ops, left, right, dual, vl[v0] as int) && fuel > 0 {
        lemma_walk_end(vl, ops, left, right, dual, chain_step(dual, vl[v0] as int), (fuel - 1) as nat);
    }
}

/// A cluster label.
pub open spec fn is_label(x: i64) -> bool {
    x == FLIPPED || x == NOT_FLIPPED
}

/// Operators only toggle between diagonal and off-diagonal site operators.
pub open spec fn site_flips_only(a: Seq<Op>, b: Seq<Op>) -> bool {
    &&& a.len() == b.len()
    &&& forall|p: int|
        0 <= p < a.len() ==> #[trigger] b[p] == a[p] || (a[p].is_site() && b[p] == a[p].flipped())
}

proof fn lemma_site_flips_trans(a: Seq<Op>, b: Seq<Op>, c: Seq<Op>)
    requires
        site_flips_only(a, b),
        site_flips_only(b, c),
    ensures
        site_flips_only(a, c),
{
    assert forall|p: int| 0 <= p < a.len() implies #[trigger] c[p] == a[p] || (a[p].is_site() && c[p]
        == a[p].flipped()) by {
        assert(b[p] == a[p] || (a[p].is_site() && b[p] == a[p].flipped()));
        assert(c[p] == b[p] || (b[p].is_site() && c[p] == b[p].flipped()));
    }
}

impl TFIModel {
    /// During cluster growth every vertex-list entry is a label or a leg,
    /// every first leg is a leg or `EMPTY`, and the stack holds legs.
    pub open spec fn marks_ok(&self) -> bool {
        let len = self.vertex_list@.len();
        &&& forall|v: int|
            0 <= v < len ==> FLIPPED <= #[trigger] self.vertex_list@[v] && self.vertex_list@[v] < len
        &&& forall|s: int|
            0 <= s < self.v_first@.len() ==> #[trigger] self.v_first@[s] == EMPTY || (0 <= self.v_first@[s] < len)
        &&& forall|i: int| 0 <= i < self.stack@.len() ==> #[trigger] self.stack@[i] < len
    }

    /// What the link helper returns for leg `v`: a leg's mark when it is
    /// processed, else the end of its walk, over at most `4 m` steps.
    pub open spec fn link_of(&self, dual: bool, v: int) -> i64 {
        if self.vertex_list@[v] < 0 {
            self.vertex_list@[v]
        } else {
            walk_from(
                self.vertex_list@,
                self.op_string@,
                self.left_qudits@,
                self.right_qudits@,
                dual,
                v,
                (4 * self.m) as nat,
            )
        }
    }

    /// The operator at the slot of leg `v` ends a cluster: a site operator in
    /// the site list, a bond operator in the dual list.
    pub open spec fn ends_cluster(&self, dual: bool, v: int) -> bool {
        if dual {
            self.op_string@[v / 4].is_bond()
        } else {
            self.op_string@[v / 4].is_site()
        }
    }

    /// The stack after one growth step: the top leg is popped; when it is not
    /// processed yet, the leg its walk reaches is pushed unless it carries the
    /// current label, and for an operator that does not end the cluster its
    /// three other legs are pushed when their walks reach a leg.
    pub open spec fn grown_stack(&self, dual: bool) -> Seq<usize> {
        let vs = self.stack@.last() as int;
        let s0 = self.stack@.drop_last();
        if self.vertex_list@[vs] < 0 {
            s0
        } else {
            let v1 = self.link_of(dual, vs);
            let s1 = push_if(s0, v1 >= 0 && self.vertex_list@[v1 as int] != self.flip, v1 as int);
            if self.ends_cluster(dual, vs) {
                s1
            } else {
                let v2 = if dual { across(vs) } else { beside(vs) };
                let v3 = if dual { beside(vs) } else { across(vs) };
                let v4 = if dual { across(v3) } else { beside(v3) };
                push_if(
                    push_if(push_if(s1, self.link_of(dual, v2) >= 0, v2), self.link_of(dual, v3) >= 0, v3),
                    self.link_of(dual, v4) >= 0,
                    v4,
                )
            }
        }
    }

    /// The operators after one growth step: the slot of an unprocessed top leg
    /// is flipped when its operator ends the cluster and the label is `FLIPPED`.
    pub open spec fn grown_ops(&self, dual: bool) -> Seq<Op> {
        let vs = self.stack@.last() as int;
        if self.vertex_list@[vs] >= 0 && self.ends_cluster(dual, vs) && self.flip == FLIPPED {
            self.op_string@.update(vs / 4, self.op_string@[vs / 4].flipped())
        } else {
            self.op_string@
        }
    }

    /// The marks after one growth step: an unprocessed top leg takes the label.
    pub open spec fn grown_marks(&self) -> Seq<i64> {
        let vs = self.stack@.last() as int;
        if self.vertex_list@[vs] < 0 {
            self.vertex_list@
        } else {
            self.vertex_list@.update(vs, self.flip)
        }
    }

    /// No operator that may not flip has changed since `ops0`, and no leg of
    /// one waits on the stack.
    pub open spec fn frozen_ok(&self, ops0: Seq<Op>, dual: bool) -> bool {
        &&& ops0.len() == self.op_string@.len()
        &&& forall|p: int|
            0 <= p < ops0.len() && frozen(ops0, self.left_qudits@, self.right_qudits@, dual, p)
                ==> #[trigger] self.op_string@[p] == ops0[p]
        &&& forall|i: int|
            0 <= i < self.stack@.len() ==> !frozen(
                ops0,
                self.left_qudits@,
                self.right_qudits@,
                dual,
                (#[trigger] self.stack@[i]) as int / 4,
            )
    }

    /// One growth step keeps `frozen_ok`: an operator that may not flip is
    /// never reached by a walk, never ends a cluster's sibling push, and so
    /// never sits on the stack.
    pub proof fn lemma_grown_frozen(&self, ops0: Seq<Op>, dual: bool)
        requires
            self.wf(),
            self.marks_ok(),
            self.stack@.len() > 0,
            self.frozen_ok(ops0, dual),
        ensures
            stack_free(self.grown_stack(dual), ops0, self.left_qudits@, self.right_qudits@, dual),
            forall|p: int|
                0 <= p < ops0.len() && frozen(ops0, self.left_qudits@, self.right_qudits@, dual, p)
                    ==> #[trigger] self.grown_ops(dual)[p] == ops0[p],
    {
        let left = self.left_qudits@;
        let right = self.right_qudits@;
        let vl = self.vertex_list@;
        let ops = self.op_string@;
        let vs = self.stack@.last() as int;
        let s0 = self.stack@.drop_last();
        assert(!frozen(ops0, left, right, dual, self.stack@[self.stack@.len() - 1] as int / 4));
        assert(stack_free(s0, ops0, left, right, dual)) by {
            assert forall|i: int| 0 <= i < s0.len() implies !frozen(ops0, left, right, dual, (#[trigger] s0[i]) as int / 4) by {
                assert(s0[i] == self.stack@[i]);
            }
        }
        if vl[vs] >= 0 {
            let v1 = self.link_of(dual, vs);
            lemma_walk_end(vl, ops, left, right, dual, vs, (4 * self.m) as nat);
            if v1 >= 0 && frozen(ops0, left, right, dual, v1 as int / 4) {
                assert(ops[v1 as int / 4] == ops0[v1 as int / 4]);
            }
            let c1 = v1 >= 0 && vl[v1 as int] != self.flip;
            lemma_push_if_free(s0, c1, v1 as int, ops0, left, right, dual);
            let s1 = push_if(s0, c1, v1 as int);
            if !self.ends_cluster(dual, vs) {
                if frozen(ops0, left, right, dual, vs / 4) {
                    assert(ops[vs / 4] == ops0[vs / 4]);
                }
                let v2 = if dual { across(vs) } else { beside(vs) };
                let v3 = if dual { beside(vs) } else { across(vs) };
                let v4 = if dual { across(v3) } else { beside(v3) };
                assert(v2 / 4 == vs / 4 && v3 / 4 == vs / 4 && v4 / 4 == vs / 4);
                assert(0 <= v2 < vl.len() && 0 <= v3 < vl.len() && 0 <= v4 < vl.len());
                lemma_push_if_free(s1, self.link_of(dual, v2) >= 0, v2, ops0, left, right, dual);
                let s2 = push_if(s1, self.link_of(dual, v2) >= 0, v2);
                lemma_push_if_free(s2, self.link_of(dual, v3) >= 0, v3, ops0, left, right, dual);
                let s3 = push_if(s2, self.link_of(dual, v3) >= 0, v3);
                lemma_push_if_free(s3, self.link_of(dual, v4) >= 0, v4, ops0, left, right, dual);
            }
        }
    }

    /// Growth potential: each processed leg may add at most four stack entries.
    pub open spec fn growth_measure(&self) -> nat {
        5 * count_open(self.vertex_list@) + self.stack@.len()
    }

    /// From leg `v`, the leg its chain reaches next, skipping through legs that
    /// the loop passes: a negative mark when `v` is processed, else the first
    /// leg that is not `field_transparent`. A walk that meets a mark, or runs
    /// longer than the list, gives `EMPTY`.
    fn link_to_valid_cluster_leg(&self, v: usize) -> (r: i64)
        requires
            self.wf(),
            self.marks_ok(),
            v < self.vertex_list@.len(),
        ensures
            r < 0 || (r < self.vertex_list@.len() && !field_transparent(
                self.op_string@,
                self.left_qudits@,
                r as int,
            )),
            r == self.link_of(false, v as int),
    {
        if self.vertex_list[v] < 0 {
            return self.vertex_list[v];
        }
        let mut v0: usize = v;
        let mut fuel: usize = 4 * self.m;
        loop
            invariant
                self.wf(),
                self.marks_ok(),
                v0 < self.vertex_list@.len(),
                self.vertex_list@[v as int] >= 0,
                self.link_of(false, v as int) == walk_from(
                    self.vertex_list@,
                    self.op_string@,
                    self.left_qudits@,
                    self.right_qudits@,
                    false,
                    v0 as int,
                    fuel as nat,
                ),
            decreases fuel,
        {
            let v1 = self.vertex_list[v0];
            if v1 < 0 {
                return EMPTY;
            }
            let v1 = v1 as usize;
            let the_p1 = v1 / 4;
            let op1 = self.op_string[the_p1];
            // a diagonal bond operator, or a diagonal site operator whose
            // register does not allow the flip, passes the loop through
            let transparent = match op1 {
                Op::DiagBond(_) => true,
                Op::DiagSite(_) => interaction_bit(self.left_qudits[the_p1]) == 1,
                _ => false,
            };
            if !transparent {
                return v1 as i64;
            }
            if fuel == 0 {
                return EMPTY;
            }
            fuel = fuel - 1;
            proof {
                assert(v1 % 4 < 2 ==> v1 + 2 < self.vertex_list@.len());
            }
            v0 = time_partner_leg(v1);
        }
    }

    /// Processes the leg on top of the stack: pushes the leg its chain reaches
    /// unless that one carries the current label already, flips a site
    /// operator of a flipped cluster, pushes the three other legs of a bond
    /// operator, and marks the leg with the current label.
    fn make_cluster(&mut self)
        requires
            old(self).wf(),
            old(self).marks_ok(),
            is_label(old(self).flip),
            old(self).stack@.len() > 0,
        ensures
            final(self).wf(),
            final(self).marks_ok(),
            final(self).growth_measure() < old(self).growth_measure(),
            final(self).stack@ == old(self).grown_stack(false),
            final(self).op_string@ == old(self).grown_ops(false),
            final(self).vertex_list@ == old(self).grown_marks(),
            site_flips_only(old(self).op_string@, final(self).op_string@),
            *final(self) == (TFIModel {
                op_string: final(self).op_string,
                vertex_list: final(self).vertex_list,
                stack: final(self).stack,
                ..*old(self)
            }),
    {
        let len = self.vertex_list.len();
        let v_start = self.stack_pop();
        let v1 = self.link_to_valid_cluster_leg(v_start);
        if self.vertex_list[v_start] < 0 {
            // processed already
            return;
        }
        let ghost open0 = self.vertex_list@;
        let ghost stack0 = self.stack@;
        if v1 >= 0 && self.vertex_list[v1 as usize] != self.flip {
            self.stack_push(v1 as usize);
        }
        let the_p = v_start / 4;
        let op = self.op_string[the_p];
        if op.is_site_op() {
            if self.flip == FLIPPED {
                proof {
                    lemma_count_update(self.op_string@, the_p as int, op.flipped());
                }
                self.op_string.set(the_p, flip_operator(op));
            }
        } else {
            let v2 = neighbor_leg(v_start);
            let v3 = time_partner_leg(v_start);
            let v4 = neighbor_leg(v3);
            proof {
                assert(v2 < len);
                assert(v3 < len);
                assert(v4 < len);
            }
            if self.link_to_valid_cluster_leg(v2) >= 0 {
                self.stack_push(v2);
            }
            if self.link_to_valid_cluster_leg(v3) >= 0 {
                self.stack_push(v3);
            }
            if self.link_to_valid_cluster_leg(v4) >= 0 {
                self.stack_push(v4);
            }
        }
        proof {
            lemma_count_open_update(self.vertex_list@, v_start as int, self.flip);
        }
        let label = self.flip;
        self.vertex_list.set(v_start, label);
        proof {
            assert(self.op_string@.len() == old(self).op_string@.len());
            assert forall|p: int| 0 <= p < self.m implies (#[trigger] self.op_string@[p]).fits(
                self.num_sites as nat,
            ) by {
                assert(old(self).op_string@[p].fits(self.num_sites as nat));
            }
        }
    }

    /// Grows the cluster of the legs on the stack until the stack is empty.
    fn grow_cluster(&mut self, ops0: Ghost<Seq<Op>>)
        requires
            old(self).wf(),
            old(self).marks_ok(),
            is_label(old(self).flip),
            old(self).frozen_ok(ops0@, false),
        ensures
            final(self).wf(),
            final(self).marks_ok(),
            final(self).frozen_ok(ops0@, false),
            final(self).stack@.len() == 0,
            site_flips_only(old(self).op_string@, final(self).op_string@),
            *final(self) == (TFIModel {
                op_string: final(self).op_string,
                vertex_list: final(self).vertex_list,
                stack: final(self).stack,
                ..*old(self)
            }),
    {
        while self.stack.len() > 0
            invariant
                self.wf(),
                self.marks_ok(),
                is_label(self.flip),
                self.frozen_ok(ops0@, false),
                site_flips_only(old(self).op_string@, self.op_string@),
                *self == (TFIModel {
                    op_string: self.op_string,
                    vertex_list: self.vertex_list,
                    stack: self.stack,
                    ..*old(self)
                }),
            decreases self.growth_measure(),
        {
            let ghost before = self.op_string@;
            let ghost pre = *self;
            proof {
                pre.lemma_grown_frozen(ops0@, false);
            }
            self.make_cluster();
            proof {
                lemma_site_flips_trans(old(self).op_string@, before, self.op_string@);
            }
        }
    }
}


impl TFIModel {
    /// Follows the chain whose first leg is `v`, through the time partners of
    /// its legs (their backs in the dual list), until it meets a processed leg; that leg's label
    /// says whether the site's field bit is toggled. Gives `false` when the
    /// chain has no label or is longer than the list.
    pub(crate) fn chain_flipped(&self, v: usize, dual: bool) -> (r: bool)
        requires
            self.marks_ok(),
            v < self.vertex_list@.len(),
        ensures
            r == label_walk(self.vertex_list@, dual, v as int, v as int, self.vertex_list@.len()),
    {
        let mut v0: usize = v;
        let mut fuel: usize = self.vertex_list.len();
        loop
            invariant
                self.marks_ok(),
                v0 < self.vertex_list@.len(),
                v < self.vertex_list@.len(),
                label_walk(self.vertex_list@, dual, v as int, v as int, self.vertex_list@.len())
                    == label_walk(self.vertex_list@, dual, v as int, v0 as int, fuel as nat),
            decreases fuel,
        {
            if self.vertex_list[v0] < 0 {
                return self.vertex_list[v0] == FLIPPED;
            }
            let next_leg = if dual {
                to_back(v0)
            } else {
                time_partner_leg(v0)
            };
            if next_leg >= self.vertex_list.len() {
                return false;
            }
            let next = self.vertex_list[next_leg];
            if next < 0 || fuel == 0 {
                return false;
            }
            fuel = fuel - 1;
            v0 = next as usize;
            if v0 == v {
                return false;
            }
        }
    }

    /// The loop cluster update. Builds the site vertex list; grows a cluster
    /// from every unprocessed leg (on the even legs of each slice) of an
    /// off-diagonal site operator or of a diagonal site operator whose register
    /// has `r_z == 0`, with a fair coin for its label; a flipped cluster toggles
    /// its site operators between diagonal and off-diagonal. Then each site
    /// with operators toggles its field bit when its chain's label says so, and
    /// each site without operators toggles it on a fair coin.
    pub fn cluster_update(&mut self)
        requires
            old(self).wf(),
        ensures
            final(self).wf(),
            site_flips_only(old(self).op_string@, final(self).op_string@),
            forall|p: int|
                0 <= p < old(self).m && frozen(old(self).op_string@, old(self).left_qudits@, old(self).right_qudits@, false, p)
                    ==> #[trigger] final(self).op_string@[p] == old(self).op_string@[p],
            final(self).stack@.len() == 0,
            forall|s: int|
                0 <= s < old(self).num_sites && final(self).v_first@[s] != FREE_SPIN ==> #[trigger] final(self).qudits@[s]
                    == rx_toggled_if(
                    label_walk(
                        final(self).vertex_list@,
                        false,
                        final(self).v_first@[s] as int,
                        final(self).v_first@[s] as int,
                        final(self).vertex_list@.len(),
                    ),
                    old(self).qudits@[s],
                ),
            forall|s: int|
                0 <= s < old(self).num_sites ==> #[trigger] final(self).qudits@[s] == old(self).qudits@[s]
                    || final(self).qudits@[s] == with_rx_toggled(old(self).qudits@[s]),
            *final(self) == (TFIModel {
                op_string: final(self).op_string,
                qudits: final(self).qudits,
                vertex_list: final(self).vertex_list,
                v_first: final(self).v_first,
                v_last: final(self).v_last,
                stack: final(self).stack,
                flip: final(self).flip,
                rng: final(self).rng,
                ..*old(self)
            }),
    {
        self.make_vertex_list();
        self.stack_initialize();
        self.flip = NOT_FLIPPED;
        let len = self.vertex_list.len();
        let ghost q0 = self.qudits@;
        let mut v: usize = 0;
        while v < len
            invariant
                self.wf(),
                self.marks_ok(),
                is_label(self.flip),
                len == self.vertex_list@.len(),
                len == 4 * self.m,
                v % 2 == 0,
                v <= len,
                self.stack@.len() == 0,
                self.qudits@ == q0,
                self.frozen_ok(old(self).op_string@, false),
                site_flips_only(old(self).op_string@, self.op_string@),
                *self == (TFIModel {
                    op_string: self.op_string,
                    vertex_list: self.vertex_list,
                    v_first: self.v_first,
                    v_last: self.v_last,
                    stack: self.stack,
                    flip: self.flip,
                    rng: self.rng,
                    ..*old(self)
                }),
            decreases len - v,
        {
            if self.vertex_list[v] >= 0 {
                let the_p = v / 4;
                let op = self.op_string[the_p];
                // an off-diagonal site operator is always valid; a diagonal
                // one only with r_z == 0
                let valid = match op {
                    Op::OffDiagSite(_) => true,
                    Op::DiagSite(_) => interaction_bit(self.left_qudits[the_p]) == 0,
                    _ => false,
                };
                if valid {
                    let r = self.rand_prob();
                    self.flip = if does_coin_flip(r) {
                        FLIPPED
                    } else {
                        NOT_FLIPPED
                    };
                    proof {
                        if frozen(old(self).op_string@, self.left_qudits@, self.right_qudits@, false, the_p as int) {
                            assert(self.op_string@[the_p as int] == old(self).op_string@[the_p as int]);
                        }
                    }
                    self.stack_push(v);
                    let ghost before = self.op_string@;
                    self.grow_cluster(Ghost(old(self).op_string@));
                    proof {
                        lemma_site_flips_trans(old(self).op_string@, before, self.op_string@);
                    }
                }
            }
            v = v + 2;
        }
        // update the registers at time zero
        let mut s: usize = 0;
        while s < self.num_sites
            invariant
                self.wf(),
                self.marks_ok(),
                s <= self.num_sites,
                site_flips_only(old(self).op_string@, self.op_string@),
                self.frozen_ok(old(self).op_string@, false),
                self.stack@.len() == 0,
                forall|t: int|
                    0 <= t < self.num_sites ==> #[trigger] self.qudits@[t] == q0[t] || self.qudits@[t]
                        == with_rx_toggled(q0[t]),
                forall|t: int| s <= t < self.num_sites ==> #[trigger] self.qudits@[t] == q0[t],
                q0 == old(self).qudits@,
                registers_valid(q0),
                forall|t: int|
                    0 <= t < s && self.v_first@[t] != FREE_SPIN ==> #[trigger] self.qudits@[t] == rx_toggled_if(
                        label_walk(
                            self.vertex_list@,
                            false,
                            self.v_first@[t] as int,
                            self.v_first@[t] as int,
                            self.vertex_list@.len(),
                        ),
                        q0[t],
                    ),
                *self == (TFIModel {
                    op_string: self.op_string,
                    qudits: self.qudits,
                    vertex_list: self.vertex_list,
                    v_first: self.v_first,
                    v_last: self.v_last,
                    stack: self.stack,
                    flip: self.flip,
                    rng: self.rng,
                    ..*old(self)
                }),
            decreases self.num_sites - s,
        {
            let first = self.v_first[s];
            let toggle = if first != FREE_SPIN {
                proof {
                    assert(self.v_first@[s as int] == EMPTY || 0 <= self.v_first@[s as int]);
                }
                self.chain_flipped(first as usize, false)
            } else {
                // a site without operators is free: its field bit is toggled on a fair coin
                let r = self.rand_prob();
                does_coin_flip(r)
            };
            if toggle {
                proof {
                    assert(self.qudits@[s as int] == q0[s as int]);
                }
                let q = toggle_field(self.qudits[s]);
                self.qudits.set(s, q);
                proof {
                    assert forall|t: int| 0 <= t < self.qudits@.len() implies #[trigger] self.qudits@[t] < 4 by {
                        if t != s {
                            assert(registers_valid(q0));
                        }
                    }
                }
            }
            s = s + 1;
        }
    }
}

} // verus!

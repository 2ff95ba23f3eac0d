//! The bond (interaction) cluster update over the dual vertex list.
use vstd::prelude::*;
use crate::acceptance::does_coin_flip;
use crate::cluster::{lemma_count_open_update, is_label, walk_from, frozen};
use crate::encoding::{
    Op, FLIPPED, NOT_FLIPPED, FREE_SPIN, rx, rz, with_rz_toggled, field_bit, flip_operator, toggle_field,
    toggle_interaction, time_partner_leg, to_back,
};
use crate::model::{TFIModel, lemma_count_update};

verus! {

/// A leg that the dual cluster passes straight through: a diagonal site
/// operator, or a diagonal bond operator whose two registers differ in `r_x`.
pub open spec fn bond_transparent(ops: Seq<Op>, left: Seq<u8>, right: Seq<u8>, v: int) -> bool {
    let op = ops[v / 4];
    op is DiagSite || (op is DiagBond && rx(left[v / 4]) != rx(right[v / 4]))
}

/// Key `s` is among the first `k` keys and toggled in `t`. Site `s` is an end
/// of keys `s` and `s - 1` (for site 0, the last key).
pub open spec fn key_toggles_site(t: Seq<bool>, k: int, s: int) -> bool {
    0 <= s < k && t[s]
}

/// The interaction bits after the bond toggles `t` of the keys below `k`:
/// site `s` keeps its bit exactly when its two keys toggled alike.
pub open spec fn rz_after_toggles(q0: Seq<u8>, q: Seq<u8>, t: Seq<bool>, k: int) -> bool {
    let n = q0.len() as int;
    forall|s: int|
        0 <= s < n ==> (rz(#[trigger] q[s]) == rz(q0[s])) == (key_toggles_site(t, k, s) == key_toggles_site(t, k, (s + n - 1) % n))
}

/// Operators only toggle between diagonal and off-diagonal bond operators.
pub open spec fn bond_flips_only(a: Seq<Op>, b: Seq<Op>) -> bool {
    &&& a.len() == b.len()
    &&& forall|p: int|
        0 <= p < a.len() ==> #[trigger] b[p] == a[p] || (a[p].is_bond() && b[p] == a[p].flipped())
}

proof fn lemma_bond_flips_trans(a: Seq<Op>, b: Seq<Op>, c: Seq<Op>)
    requires
        bond_flips_only(a, b),
        bond_flips_only(b, c),
    ensures
        bond_flips_only(a, c),
{
    assert forall|p: int| 0 <= p < a.len() implies #[trigger] c[p] == a[p] || (a[p].is_bond() && c[p]
        == a[p].flipped()) by {
        assert(b[p] == a[p] || (a[p].is_bond() && b[p] == a[p].flipped()));
        assert(c[p] == b[p] || (b[p].is_bond() && c[p] == b[p].flipped()));
    }
}

impl TFIModel {
    /// From leg `v`, the leg its dual chain reaches next, skipping through legs
    /// that the dual cluster passes: a negative mark when `v` is processed,
    /// else the first leg that is not `bond_transparent`. A walk that meets a
    /// mark, or runs longer than the list, gives `EMPTY`.
    fn link_to_valid_dual_cluster_leg(&self, v: usize) -> (r: i64)
        requires
            self.wf(),
            self.marks_ok(),
            v < self.vertex_list@.len(),
        ensures
            r < 0 || (r < self.vertex_list@.len() && !bond_transparent(
                self.op_string@,
                self.left_qudits@,
                self.right_qudits@,
                r as int,
            )),
            r == self.link_of(true, v as int),
    {
        if self.vertex_list[v] < 0 {
            return self.vertex_list[v];
        }
        let mut v0: usize = v;
        let mut fuel: usize = 4 * self.m;
        loop
            invariant
                self.wf(),
                self.marks_ok(),
                v0 < self.vertex_list@.len(),
                v < self.vertex_list@.len(),
                self.vertex_list@[v as int] >= 0,
                self.link_of(true, v as int) == walk_from(
                    self.vertex_list@,
                    self.op_string@,
                    self.left_qudits@,
                    self.right_qudits@,
                    true,
                    v0 as int,
                    fuel as nat,
                ),
            decreases fuel,
        {
            let v1 = self.vertex_list[v0];
            if v1 < 0 {
                return crate::encoding::EMPTY;
            }
            let v1 = v1 as usize;
            let the_p1 = v1 / 4;
            let op1 = self.op_string[the_p1];
            // a diagonal site operator, or a diagonal bond operator that does
            // not satisfy the constraint, passes the dual loop through
            let transparent = match op1 {
                Op::DiagSite(_) => true,
                Op::DiagBond(_) => field_bit(self.left_qudits[the_p1]) != field_bit(self.right_qudits[the_p1]),
                _ => false,
            };
            if !transparent {
                return v1 as i64;
            }
            if fuel == 0 {
                return crate::encoding::EMPTY;
            }
            fuel = fuel - 1;
            v0 = to_back(v1);
        }
    }

    /// Processes the leg on top of the stack, as `make_cluster` does on the
    /// dual list: a flipped cluster toggles its bond operators, and a site
    /// operator hands the cluster on to its three other legs.
    fn make_bond_cluster(&mut self)
        requires
            old(self).wf(),
            old(self).marks_ok(),
            is_label(old(self).flip),
            old(self).stack@.len() > 0,
        ensures
            final(self).wf(),
            final(self).marks_ok(),
            final(self).growth_measure() < old(self).growth_measure(),
            final(self).stack@ == old(self).grown_stack(true),
            final(self).op_string@ == old(self).grown_ops(true),
            final(self).vertex_list@ == old(self).grown_marks(),
            bond_flips_only(old(self).op_string@, final(self).op_string@),
            *final(self) == (TFIModel {
                op_string: final(self).op_string,
                vertex_list: final(self).vertex_list,
                stack: final(self).stack,
                ..*old(self)
            }),
    {
        let len = self.vertex_list.len();
        let v_start = self.stack_pop();
        let v1 = self.link_to_valid_dual_cluster_leg(v_start);
        if self.vertex_list[v_start] < 0 {
            return;
        }
        if v1 >= 0 && self.vertex_list[v1 as usize] != self.flip {
            self.stack_push(v1 as usize);
        }
        let the_p = v_start / 4;
        let op = self.op_string[the_p];
        if op.is_bond_op() {
            if self.flip == FLIPPED {
                proof {
                    lemma_count_update(self.op_string@, the_p as int, op.flipped());
                }
                self.op_string.set(the_p, flip_operator(op));
            }
        } else {
            let v2 = time_partner_leg(v_start);
            let v3 = to_back(v_start);
            let v4 = time_partner_leg(v3);
            proof {
                assert(v2 < len);
                assert(v3 < len);
                assert(v4 < len);
            }
            if self.link_to_valid_dual_cluster_leg(v2) >= 0 {
                self.stack_push(v2);
            }
            if self.link_to_valid_dual_cluster_leg(v3) >= 0 {
                self.stack_push(v3);
            }
            if self.link_to_valid_dual_cluster_leg(v4) >= 0 {
                self.stack_push(v4);
            }
        }
        proof {
            lemma_count_open_update(self.vertex_list@, v_start as int, self.flip);
        }
        let label = self.flip;
        self.vertex_list.set(v_start, label);
        proof {
            assert forall|p: int| 0 <= p < self.m implies (#[trigger] self.op_string@[p]).fits(
                self.num_sites as nat,
            ) by {
                assert(old(self).op_string@[p].fits(self.num_sites as nat));
            }
        }
    }

    /// Grows the dual cluster of the legs on the stack until the stack is empty.
    fn grow_bond_cluster(&mut self, ops0: Ghost<Seq<Op>>)
        requires
            old(self).wf(),
            old(self).marks_ok(),
            is_label(old(self).flip),
            old(self).frozen_ok(ops0@, true),
        ensures
            final(self).wf(),
            final(self).marks_ok(),
            final(self).frozen_ok(ops0@, true),
            final(self).stack@.len() == 0,
            bond_flips_only(old(self).op_string@, final(self).op_string@),
            *final(self) == (TFIModel {
                op_string: final(self).op_string,
                vertex_list: final(self).vertex_list,
                stack: final(self).stack,
                ..*old(self)
            }),
    {
        while self.stack.len() > 0
            invariant
                self.wf(),
                self.marks_ok(),
                is_label(self.flip),
                self.frozen_ok(ops0@, true),
                bond_flips_only(old(self).op_string@, self.op_string@),
                *self == (TFIModel {
                    op_string: self.op_string,
                    vertex_list: self.vertex_list,
                    stack: self.stack,
                    ..*old(self)
                }),
            decreases self.growth_measure(),
        {
            let ghost before = self.op_string@;
            let ghost pre = *self;
            proof {
                pre.lemma_grown_frozen(ops0@, true);
            }
            self.make_bond_cluster();
            proof {
                lemma_bond_flips_trans(old(self).op_string@, before, self.op_string@);
            }
        }
    }
}


impl TFIModel {
    /// Toggles the interaction bit of sites `b` and `(b + 1) % num_sites` (for
    /// the last key, the two ends of the chain).
    fn toggle_bond_registers(&mut self, b: usize)
        requires
            old(self).wf(),
            b < old(self).num_sites,
        ensures
            final(self).wf(),
            final(self).qudits@ == ({
                let q1 = old(self).qudits@.update(b as int, with_rz_toggled(old(self).qudits@[b as int]));
                let sr = (b + 1) % old(self).num_sites as int;
                q1.update(sr, with_rz_toggled(q1[sr]))
            }),
            forall|s: int| 0 <= s < old(self).num_sites ==> rx(#[trigger] final(self).qudits@[s]) == rx(old(self).qudits@[s]),
            *final(self) == (TFIModel { qudits: final(self).qudits, ..*old(self) }),
    {
        let s_left = b;
        let s_right = (b + 1) % self.num_sites;
        let ql = toggle_interaction(self.qudits[s_left]);
        self.qudits.set(s_left, ql);
        let qr = toggle_interaction(self.qudits[s_right]);
        self.qudits.set(s_right, qr);
        proof {
            assert forall|t: int| 0 <= t < self.qudits@.len() implies #[trigger] self.qudits@[t] < 4 by {
                assert(old(self).qudits@[t] < 4);
            }
        }
    }

    /// Toggles the field bit of every site: the global symmetry of the model
    /// in this basis.
    fn toggle_all_fields(&mut self)
        requires
            old(self).wf(),
        ensures
            final(self).wf(),
            forall|s: int|
                0 <= s < old(self).num_sites ==> #[trigger] final(self).qudits@[s]
                    == crate::encoding::with_rx_toggled(old(self).qudits@[s]),
            *final(self) == (TFIModel { qudits: final(self).qudits, ..*old(self) }),
    {
        let mut s: usize = 0;
        while s < self.num_sites
            invariant
                self.shape_ok(),
                old(self).wf(),
                s <= self.num_sites,
                forall|t: int|
                    0 <= t < s ==> #[trigger] self.qudits@[t] == crate::encoding::with_rx_toggled(
                        old(self).qudits@[t],
                    ),
                forall|t: int| s <= t < self.num_sites ==> #[trigger] self.qudits@[t] == old(self).qudits@[t],
                *self == (TFIModel { qudits: self.qudits, ..*old(self) }),
            decreases self.num_sites - s,
        {
            proof {
                assert(old(self).qudits@[s as int] < 4);
            }
            let q = toggle_field(self.qudits[s]);
            self.qudits.set(s, q);
            s = s + 1;
        }
        proof {
            assert forall|t: int| 0 <= t < self.qudits@.len() implies #[trigger] self.qudits@[t] < 4 by {
                assert(old(self).qudits@[t] < 4);
            }
        }
    }

    /// The bond cluster update. Builds the dual vertex list; grows a dual
    /// cluster from every unprocessed leg of an off-diagonal bond operator or
    /// of a diagonal bond operator whose two registers agree in `r_x`, with a
    /// fair coin for its label; a flipped cluster toggles its bond operators.
    /// A leg whose chain reaches another bond operator directly forms a
    /// cluster of those two legs. Then each bond with operators toggles the
    /// interaction bits of its two sites when its chain's label says so, each
    /// bond without operators on a fair coin, and finally every field bit is
    /// toggled together on a fair coin.
    ///
    /// Bond keys run over `0..num_sites`: besides the chain's `L - 1` bonds
    /// there is key `L - 1`, which joins site `L - 1` to site 0. Site operators
    /// on the two ends of the chain bridge it (see `leg_key`), and its toggle
    /// acts on sites `L - 1` and `0`.
    pub fn bond_cluster_update(&mut self)
        requires
            old(self).wf(),
        ensures
            final(self).wf(),
            bond_flips_only(old(self).op_string@, final(self).op_string@),
            forall|p: int|
                0 <= p < old(self).m && frozen(old(self).op_string@, old(self).left_qudits@, old(self).right_qudits@, true, p)
                    ==> #[trigger] final(self).op_string@[p] == old(self).op_string@[p],
            final(self).stack@.len() == 0,
            exists|t: Seq<bool>|
                #![trigger rz_after_toggles(old(self).qudits@, final(self).qudits@, t, old(self).num_sites as int)]
                t.len() == old(self).num_sites && rz_after_toggles(
                    old(self).qudits@,
                    final(self).qudits@,
                    t,
                    old(self).num_sites as int,
                ) && forall|b: int|
                    0 <= b < old(self).num_sites && final(self).v_first@[b] != FREE_SPIN ==> #[trigger] t[b]
                        == crate::cluster::label_walk(
                        final(self).vertex_list@,
                        true,
                        final(self).v_first@[b] as int,
                        final(self).v_first@[b] as int,
                        final(self).vertex_list@.len(),
                    ),
            (forall|s: int| 0 <= s < old(self).num_sites ==> rx(#[trigger] final(self).qudits@[s]) == rx(old(self).qudits@[s]))
                || (forall|s: int| 0 <= s < old(self).num_sites ==> rx(#[trigger] final(self).qudits@[s]) != rx(old(self).qudits@[s])),
            *final(self) == (TFIModel {
                op_string: final(self).op_string,
                qudits: final(self).qudits,
                vertex_list: final(self).vertex_list,
                v_first: final(self).v_first,
                v_last: final(self).v_last,
                stack: final(self).stack,
                flip: final(self).flip,
                rng: final(self).rng,
                ..*old(self)
            }),
    {
        self.make_dual_vertex_list();
        self.stack_initialize();
        self.flip = NOT_FLIPPED;
        let len = self.vertex_list.len();
        proof {
            assert(bond_flips_only(old(self).op_string@, self.op_string@));
        }
        let mut v: usize = 0;
        while v < len
            invariant
                self.wf(),
                self.marks_ok(),
                is_label(self.flip),
                len == self.vertex_list@.len(),
                v <= len,
                self.qudits == old(self).qudits,
                self.stack@.len() == 0,
                self.frozen_ok(old(self).op_string@, true),
                bond_flips_only(old(self).op_string@, self.op_string@),
                *self == (TFIModel {
                    op_string: self.op_string,
                    vertex_list: self.vertex_list,
                    v_first: self.v_first,
                    v_last: self.v_last,
                    stack: self.stack,
                    flip: self.flip,
                    rng: self.rng,
                    ..*old(self)
                }),
            decreases len - v,
        {
            if self.vertex_list[v] >= 0 {
                let the_p = v / 4;
                let op = self.op_string[the_p];
                // an off-diagonal bond operator is always valid; a diagonal
                // one only when its two registers agree in r_x
                let valid = match op {
                    Op::OffDiagBond(_) => true,
                    Op::DiagBond(_) => field_bit(self.left_qudits[the_p]) == field_bit(self.right_qudits[the_p]),
                    _ => false,
                };
                if valid {
                    let r = self.rand_prob();
                    self.flip = if does_coin_flip(r) {
                        FLIPPED
                    } else {
                        NOT_FLIPPED
                    };
                    proof {
                        if frozen(old(self).op_string@, self.left_qudits@, self.right_qudits@, true, the_p as int) {
                            assert(self.op_string@[the_p as int] == old(self).op_string@[the_p as int]);
                        }
                    }
                    self.stack_push(v);
                    let ghost before = self.op_string@;
                    let v1 = self.link_to_valid_dual_cluster_leg(v);
                    let direct = v1 >= 0 && self.op_string[v1 as usize / 4].is_bond_op();
                    if direct {
                        // the leg is processed here: it leaves the stack at once
                        let _ = self.stack_pop();
                        proof {
                            crate::cluster::lemma_walk_end(
                                self.vertex_list@,
                                self.op_string@,
                                self.left_qudits@,
                                self.right_qudits@,
                                true,
                                v as int,
                                (4 * self.m) as nat,
                            );
                            let p1 = v1 / 4;
                            if frozen(old(self).op_string@, self.left_qudits@, self.right_qudits@, true, p1 as int) {
                                assert(self.op_string@[p1 as int] == old(self).op_string@[p1 as int]);
                            }
                        }
                        // the chain reaches a bond operator at once: a cluster of two legs
                        let the_p1 = v1 as usize / 4;
                        if self.flip == FLIPPED {
                            let op0 = self.op_string[the_p];
                            proof {
                                lemma_count_update(self.op_string@, the_p as int, op0.flipped());
                            }
                            self.op_string.set(the_p, flip_operator(op0));
                            let ghost mid = self.op_string@;
                            let op1 = self.op_string[the_p1];
                            proof {
                                assert(bond_flips_only(before, mid));
                                lemma_count_update(self.op_string@, the_p1 as int, op1.flipped());
                            }
                            self.op_string.set(the_p1, flip_operator(op1));
                            proof {
                                assert(op1.is_bond());
                                assert(bond_flips_only(mid, self.op_string@));
                                lemma_bond_flips_trans(before, mid, self.op_string@);
                                assert forall|p: int| 0 <= p < self.m implies (#[trigger] self.op_string@[p]).fits(
                                    self.num_sites as nat,
                                ) by {
                                    assert(before[p].fits(self.num_sites as nat));
                                    assert(mid[p].fits(self.num_sites as nat));
                                }
                            }
                        }
                        let label = self.flip;
                        self.vertex_list.set(v, label);
                        self.vertex_list.set(v1 as usize, label);
                    } else {
                        self.grow_bond_cluster(Ghost(old(self).op_string@));
                    }
                    proof {
                        lemma_bond_flips_trans(old(self).op_string@, before, self.op_string@);
                    }
                }
            }
            v = v + 1;
        }
        // update the registers at time zero
        let ghost mut t: Seq<bool> = Seq::empty();
        let mut b: usize = 0;
        while b < self.num_sites
            invariant
                t.len() == b,
                self.num_sites == old(self).num_sites,
                old(self).qudits@.len() == self.num_sites,
                rz_after_toggles(old(self).qudits@, self.qudits@, t, b as int),
                forall|x: int|
                    0 <= x < b && self.v_first@[x] != FREE_SPIN ==> #[trigger] t[x] == crate::cluster::label_walk(
                        self.vertex_list@,
                        true,
                        self.v_first@[x] as int,
                        self.v_first@[x] as int,
                        self.vertex_list@.len(),
                    ),
                self.wf(),
                self.marks_ok(),
                b <= self.num_sites,
                bond_flips_only(old(self).op_string@, self.op_string@),
                self.stack@.len() == 0,
                forall|p: int|
                    0 <= p < old(self).m && frozen(old(self).op_string@, old(self).left_qudits@, old(self).right_qudits@, true, p)
                        ==> #[trigger] self.op_string@[p] == old(self).op_string@[p],
                forall|s: int| 0 <= s < self.num_sites ==> rx(#[trigger] self.qudits@[s]) == rx(old(self).qudits@[s]),
                *self == (TFIModel {
                    op_string: self.op_string,
                    qudits: self.qudits,
                    vertex_list: self.vertex_list,
                    v_first: self.v_first,
                    v_last: self.v_last,
                    stack: self.stack,
                    flip: self.flip,
                    rng: self.rng,
                    ..*old(self)
                }),
            decreases self.num_sites - b,
        {
            let first = self.v_first[b];
            let toggle = if first != FREE_SPIN {
                proof {
                    assert(self.v_first@[b as int] == crate::encoding::EMPTY || 0 <= self.v_first@[b as int]);
                }
                self.chain_flipped(first as usize, true)
            } else {
                // a bond without operators is free: toggled on a fair coin
                let r = self.rand_prob();
                does_coin_flip(r)
            };
            let ghost pre = self.qudits@;
            let ghost t_pre = t;
            if toggle {
                self.toggle_bond_registers(b);
                proof {
                    assert forall|s: int| 0 <= s < self.num_sites implies rx(#[trigger] self.qudits@[s]) == rx(old(self).qudits@[s]) by {
                        assert(rx(pre[s]) == rx(old(self).qudits@[s]));
                    }
                }
            }
            proof {
                t = t.push(toggle);
                let n = self.num_sites as int;
                let q0 = old(self).qudits@;
                assert forall|s: int| 0 <= s < n implies (rz(#[trigger] self.qudits@[s]) == rz(q0[s])) == (
                key_toggles_site(t, b + 1, s) == key_toggles_site(t, b + 1, (s + n - 1) % n)) by {
                    assert((rz(pre[s]) == rz(q0[s])) == (key_toggles_site(t_pre, b as int, s) == key_toggles_site(t_pre, b as int, (s + n - 1) % n)));
                    assert(0 <= (s + n - 1) % n < n);
                    if s == b as int {
                        assert(key_toggles_site(t, b + 1, s) == toggle);
                    } else {
                        assert(key_toggles_site(t, b + 1, s) == key_toggles_site(t_pre, b as int, s));
                    }
                    if (s + n - 1) % n == b as int {
                        assert(s == (b + 1) % n) by {
                            if s == 0 {
                                vstd::arithmetic::div_mod::lemma_small_mod((n - 1) as nat, n as nat);
                            } else {
                                vstd::arithmetic::div_mod::lemma_mod_add_multiples_vanish(s - 1, n);
                                vstd::arithmetic::div_mod::lemma_small_mod((s - 1) as nat, n as nat);
                            }
                            if b + 1 < n {
                                vstd::arithmetic::div_mod::lemma_small_mod((b + 1) as nat, n as nat);
                            } else {
                                vstd::arithmetic::div_mod::lemma_mod_self_0(n);
                            }
                        }
                        assert(key_toggles_site(t, b + 1, (s + n - 1) % n) == toggle);
                    } else {
                        assert(key_toggles_site(t, b + 1, (s + n - 1) % n) == key_toggles_site(t_pre, b as int, (s + n - 1) % n));
                        if toggle && s == (b + 1) % n {
                            assert((s + n - 1) % n == b as int) by {
                                if b + 1 < n {
                                    vstd::arithmetic::div_mod::lemma_small_mod((b + 1) as nat, n as nat);
                                    vstd::arithmetic::div_mod::lemma_mod_add_multiples_vanish(b as int, n);
                                    vstd::arithmetic::div_mod::lemma_small_mod(b as nat, n as nat);
                                } else {
                                    vstd::arithmetic::div_mod::lemma_mod_self_0(n);
                                    vstd::arithmetic::div_mod::lemma_small_mod((n - 1) as nat, n as nat);
                                }
                            }
                        }
                    }
                }
                assert forall|x: int|
                    0 <= x < b + 1 && self.v_first@[x] != FREE_SPIN implies #[trigger] t[x] == crate::cluster::label_walk(
                        self.vertex_list@,
                        true,
                        self.v_first@[x] as int,
                        self.v_first@[x] as int,
                        self.vertex_list@.len(),
                    ) by {
                    if x < b {
                        assert(t[x] == t_pre[x]);
                    }
                }
            }
            b = b + 1;
        }
        // flip every r_x together
        let ghost before_global = self.qudits@;
        let r = self.rand_prob();
        if does_coin_flip(r) {
            let ghost pre = self.qudits@;
            self.toggle_all_fields();
            proof {
                assert forall|s: int| 0 <= s < old(self).num_sites implies rx(#[trigger] self.qudits@[s]) != rx(old(self).qudits@[s]) by {
                    assert(rx(pre[s]) == rx(old(self).qudits@[s]));
                }
                assert forall|s: int| 0 <= s < old(self).num_sites implies rz(#[trigger] self.qudits@[s]) == rz(pre[s]) by {
                    assert(pre[s] < 4);
                }
            }
        }
        proof {
            let n = self.num_sites as int;
            let q0 = old(self).qudits@;
            assert forall|s: int| 0 <= s < n implies (rz(#[trigger] self.qudits@[s]) == rz(q0[s])) == (
            key_toggles_site(t, n, s) == key_toggles_site(t, n, (s + n - 1) % n)) by {
                assert((rz(before_global[s]) == rz(q0[s])) == (key_toggles_site(t, n, s) == key_toggles_site(t, n, (s + n - 1) % n)));
            }
            assert(rz_after_toggles(q0, self.qudits@, t, n));
        }
    }
}

} // verus!

//! Vertex lists: the legs of the operator string linked into one closed chain
//! per site (or, for the dual list, per bond), in imaginary-time order.
use vstd::prelude::*;
use crate::encoding::{Op, EMPTY};
use crate::model::TFIModel;

verus! {

/// The site (or, in the dual list, the bond) that leg `v` belongs to, or `-1`
/// for a leg that no operator uses.
///
/// In the site list a site operator uses legs 0 and 2, a bond operator legs 0
/// and 2 for its left site and 1 and 3 for its right site. In the dual list a
/// bond operator uses legs 0 and 1 for its bond; a site operator bridges the
/// bond on its left (legs 0, 1) and the bond on its right (legs 2, 3). Dual
/// keys run over `0..num_sites`: the key left of site 0 and right of site
/// `num_sites - 1` is `num_sites - 1`, an extra key that joins the two ends of
/// the open chain in the dual list.
pub open spec fn leg_key(ops: Seq<Op>, num_sites: nat, dual: bool, v: int) -> int {
    let op = ops[v / 4];
    let k = v % 4;
    if op.is_null() {
        -1
    } else if !dual {
        if op.is_site() {
            if k % 2 == 0 {
                op.target() as int
            } else {
                -1
            }
        } else if k % 2 == 0 {
            op.target() as int
        } else {
            op.target() + 1int
        }
    } else if op.is_site() {
        if k < 2 {
            (op.target() + num_sites - 1) as int % (num_sites as int)
        } else {
            op.target() as int
        }
    } else if k < 2 {
        op.target() as int
    } else {
        -1
    }
}

/// Leg `v` is on the earlier time side of its slice.
pub open spec fn leg_is_lower(dual: bool, v: int) -> bool {
    if dual {
        v % 2 == 0
    } else {
        v % 4 < 2
    }
}

/// Every linked leg points to another leg of the same key, which points back.
pub open spec fn links_paired(vl: Seq<i64>, ops: Seq<Op>, num_sites: nat, dual: bool) -> bool {
    forall|v: int|
        0 <= v < vl.len() && #[trigger] vl[v] != EMPTY ==> {
            &&& 0 <= vl[v] < vl.len()
            &&& vl[v] != v
            &&& vl[vl[v] as int] == v
            &&& leg_key(ops, num_sites, dual, vl[v] as int) == leg_key(ops, num_sites, dual, v)
        }
}

/// Leg `u` comes right before the lower leg `v` on their chain: it is an
/// upper leg of the same key, earlier in the string, and no leg of that key
/// lies between them.
pub open spec fn chain_prev(ops: Seq<Op>, num_sites: nat, dual: bool, v: int, u: int) -> bool {
    &&& !leg_is_lower(dual, u)
    &&& u < v
    &&& leg_key(ops, num_sites, dual, u) == leg_key(ops, num_sites, dual, v)
    &&& forall|w: int|
        u < w < v ==> #[trigger] leg_key(ops, num_sites, dual, w) != leg_key(ops, num_sites, dual, v)
}

impl TFIModel {
    /// Order of the chains while they are built: a chain's last leg is its
    /// latest, its first leg its earliest, and each linked lower leg is linked
    /// to the leg right before it.
    pub open spec fn order_inv(&self, dual: bool, done: Set<int>) -> bool {
        let ops = self.op_string@;
        let ns = self.num_sites as nat;
        let vl = self.vertex_list@;
        &&& forall|u: int|
            #[trigger] done.contains(u) ==> {
                let s = leg_key(ops, ns, dual, u);
                &&& u <= self.v_last@[s]
                &&& self.v_first@[s] <= u
            }
        &&& forall|v: int|
            done.contains(v) && leg_is_lower(dual, v) && #[trigger] vl[v] != EMPTY ==> chain_prev(
                ops,
                ns,
                dual,
                v,
                vl[v] as int,
            )
    }

    /// Invariant while the list is built: `done` holds the legs attached so far.
    pub open spec fn build_inv(&self, dual: bool, done: Set<int>) -> bool {
        let ops = self.op_string@;
        let ns = self.num_sites as nat;
        let vl = self.vertex_list@;
        &&& links_paired(vl, ops, ns, dual)
        &&& forall|v: int| 0 <= v < vl.len() && #[trigger] vl[v] != EMPTY ==> done.contains(v)
        &&& forall|s: int|
            0 <= s < ns ==> (#[trigger] self.v_first@[s] == EMPTY) == (self.v_last@[s] == EMPTY)
        &&& forall|s: int|
            0 <= s < ns && #[trigger] self.v_first@[s] != EMPTY ==> {
                let f = self.v_first@[s] as int;
                &&& 0 <= f < vl.len()
                &&& done.contains(f)
                &&& leg_key(ops, ns, dual, f) == s
                &&& leg_is_lower(dual, f)
                &&& vl[f] == EMPTY
            }
        &&& forall|s: int|
            0 <= s < ns && #[trigger] self.v_last@[s] != EMPTY ==> {
                let l = self.v_last@[s] as int;
                &&& 0 <= l < vl.len()
                &&& done.contains(l)
                &&& leg_key(ops, ns, dual, l) == s
                &&& !leg_is_lower(dual, l)
                &&& vl[l] == EMPTY
            }
        &&& forall|v: int|
            #[trigger] done.contains(v) ==> {
                let s = leg_key(ops, ns, dual, v);
                &&& 0 <= v < vl.len()
                &&& 0 <= s < ns
                &&& self.v_first@[s] != EMPTY
                &&& (vl[v] != EMPTY || v == self.v_first@[s] || v == self.v_last@[s])
            }
    }

    /// Appends the pair of legs `(lower, upper)` of one slice to the chain of
    /// `key`: `lower` is linked to the chain's last leg (or starts the chain),
    /// and `upper` becomes the new last leg.
    fn attach_leg(&mut self, key: usize, lower: usize, upper: usize, dual: Ghost<bool>, done: Ghost<Set<int>>)
        requires
            old(self).shape_ok(),
            old(self).build_inv(dual@, done@),
            key < old(self).num_sites,
            lower < 4 * old(self).m,
            upper < 4 * old(self).m,
            !done@.contains(lower as int),
            !done@.contains(upper as int),
            lower != upper,
            leg_key(old(self).op_string@, old(self).num_sites as nat, dual@, lower as int) == key,
            leg_key(old(self).op_string@, old(self).num_sites as nat, dual@, upper as int) == key,
            leg_is_lower(dual@, lower as int),
            !leg_is_lower(dual@, upper as int),
            lower < upper,
            old(self).order_inv(dual@, done@),
            forall|w: int|
                0 <= w < lower && #[trigger] leg_key(old(self).op_string@, old(self).num_sites as nat, dual@, w) >= 0
                    ==> done@.contains(w),
            forall|w: int|
                #[trigger] done@.contains(w) && leg_key(old(self).op_string@, old(self).num_sites as nat, dual@, w)
                    == key ==> w < lower,
        ensures
            final(self).shape_ok(),
            final(self).build_inv(dual@, done@.insert(lower as int).insert(upper as int)),
            final(self).order_inv(dual@, done@.insert(lower as int).insert(upper as int)),
            *final(self) == (TFIModel {
                vertex_list: final(self).vertex_list,
                v_first: final(self).v_first,
                v_last: final(self).v_last,
                ..*old(self)
            }),
    {
        let ghost ops = self.op_string@;
        let ghost ns = self.num_sites as nat;
        let ghost d2 = done@.insert(lower as int).insert(upper as int);
        let last = self.v_last[key];
        if last > EMPTY {
            assert(self.v_last@[key as int] != EMPTY);
            let u = last as usize;
            self.vertex_list.set(u, lower as i64);
            self.vertex_list.set(lower, last);
        } else {
            self.v_first.set(key, lower as i64);
        }
        self.v_last.set(key, upper as i64);
        proof {
            let vl = self.vertex_list@;
            assert forall|s: int|
                0 <= s < ns && #[trigger] self.v_first@[s] != EMPTY implies {
                    let f = self.v_first@[s] as int;
                    &&& 0 <= f < vl.len()
                    &&& d2.contains(f)
                    &&& leg_key(ops, ns, dual@, f) == s
                    &&& leg_is_lower(dual@, f)
                    &&& vl[f] == EMPTY
                } by {
                if s != key {
                    assert(old(self).v_first@[s] != EMPTY);
                }
            }
            assert forall|s: int|
                0 <= s < ns && #[trigger] self.v_last@[s] != EMPTY implies {
                    let l = self.v_last@[s] as int;
                    &&& 0 <= l < vl.len()
                    &&& d2.contains(l)
                    &&& leg_key(ops, ns, dual@, l) == s
                    &&& !leg_is_lower(dual@, l)
                    &&& vl[l] == EMPTY
                } by {
                if s != key {
                    assert(old(self).v_last@[s] != EMPTY);
                }
            }
            assert forall|v: int| #[trigger] d2.contains(v) implies {
                let s = leg_key(ops, ns, dual@, v);
                &&& 0 <= v < vl.len()
                &&& 0 <= s < ns
                &&& self.v_first@[s] != EMPTY
                &&& (vl[v] != EMPTY || v == self.v_first@[s] || v == self.v_last@[s])
            } by {
                if v != lower && v != upper {
                    assert(done@.contains(v));
                }
            }
            assert forall|u: int| #[trigger] d2.contains(u) implies {
                let s = leg_key(ops, ns, dual@, u);
                &&& u <= self.v_last@[s]
                &&& self.v_first@[s] <= u
            } by {
                if u != lower && u != upper {
                    assert(done@.contains(u));
                    if leg_key(ops, ns, dual@, u) == key {
                        assert(u < lower);
                    }
                }
            }
            assert forall|v: int|
                d2.contains(v) && leg_is_lower(dual@, v) && #[trigger] vl[v] != EMPTY implies chain_prev(
                ops,
                ns,
                dual@,
                v,
                vl[v] as int,
            ) by {
                if v == lower {
                    let u = last as int;
                    assert(done@.contains(u));
                    assert forall|w: int| u < w < v implies #[trigger] leg_key(ops, ns, dual@, w) != leg_key(
                        ops,
                        ns,
                        dual@,
                        v,
                    ) by {
                        if leg_key(ops, ns, dual@, w) == key as int {
                            assert(done@.contains(w));
                        }
                    }
                } else if v != upper {
                    assert(done@.contains(v));
                    assert(old(self).vertex_list@[v] != EMPTY);
                }
            }
            assert forall|v: int| 0 <= v < vl.len() && #[trigger] vl[v] != EMPTY implies d2.contains(v) by {
                if v != lower && v != last {
                    assert(old(self).vertex_list@[v] != EMPTY);
                }
            }
            assert forall|v: int| 0 <= v < vl.len() && #[trigger] vl[v] != EMPTY implies {
                &&& 0 <= vl[v] < vl.len()
                &&& vl[v] != v
                &&& vl[vl[v] as int] == v
                &&& leg_key(ops, ns, dual@, vl[v] as int) == leg_key(ops, ns, dual@, v)
            } by {
                if v != lower && v != last {
                    let w = old(self).vertex_list@[v];
                    assert(old(self).vertex_list@[v] != EMPTY);
                    assert(w != lower);
                    assert(w != last);
                }
            }
        }
    }
}


/// The legs of slice `p` keyed so far: the set of attached legs after `p` slices.
pub open spec fn keyed_before(ops: Seq<Op>, num_sites: nat, dual: bool, p: int) -> Set<int> {
    Set::new(|v: int| 0 <= v < 4 * p && leg_key(ops, num_sites, dual, v) >= 0)
}

proof fn lemma_leg_parts(p: int, k: int)
    requires
        0 <= p,
        0 <= k < 4,
    ensures
        (4 * p + k) / 4 == p,
        (4 * p + k) % 4 == k,
        (4 * p + k) % 2 == k % 2,
{
    assert((4 * p + k) / 4 == p) by (nonlinear_arith)
        requires 0 <= p, 0 <= k < 4;
    assert((4 * p + k) % 4 == k) by (nonlinear_arith)
        requires 0 <= p, 0 <= k < 4;
    assert((4 * p + k) % 2 == k % 2) by (nonlinear_arith)
        requires 0 <= p, 0 <= k < 4;
}

impl TFIModel {
    /// While chains are closed, key by key from `s` on: every used leg has a
    /// chain, and is linked unless it is an open end of a chain still to close.
    pub open spec fn legs_covered(&self, ops: Seq<Op>, ns: nat, dual: bool, s: int) -> bool {
        forall|v: int|
            0 <= v < self.vertex_list@.len() && #[trigger] leg_key(ops, ns, dual, v) >= 0 ==> {
                let k = leg_key(ops, ns, dual, v);
                &&& k < ns
                &&& self.v_first@[k] != EMPTY
                &&& (self.vertex_list@[v] != EMPTY || (k >= s && (v == self.v_first@[k] || v
                    == self.v_last@[k])))
            }
    }

    /// The list has been built: linked legs come in pairs of the same key, a
    /// leg is linked exactly when an operator uses it, and `v_first` holds one
    /// leg of each key that has any, `EMPTY` for the others.
    pub open spec fn lists_built(&self, dual: bool) -> bool {
        let ops = self.op_string@;
        let ns = self.num_sites as nat;
        let vl = self.vertex_list@;
        &&& links_paired(vl, ops, ns, dual)
        &&& forall|v: int|
            0 <= v < vl.len() ==> (#[trigger] vl[v] != EMPTY) == (leg_key(ops, ns, dual, v) >= 0)
        &&& forall|s: int|
            0 <= s < ns ==> (#[trigger] self.v_first@[s] == EMPTY) == (forall|v: int|
                0 <= v < vl.len() ==> leg_key(ops, ns, dual, v) != s)
        &&& forall|s: int|
            0 <= s < ns && #[trigger] self.v_first@[s] != EMPTY ==> {
                &&& 0 <= self.v_first@[s] < vl.len()
                &&& leg_key(ops, ns, dual, self.v_first@[s] as int) == s
            }
    }

    /// Each chain runs through its legs in string order: `v_first` holds the
    /// earliest leg of each key and `v_last` the latest, and every linked lower
    /// leg is linked to the leg right before it on its chain, except the first
    /// one, which closes the cycle to the last.
    pub open spec fn chains_ordered(&self, dual: bool) -> bool {
        let ops = self.op_string@;
        let ns = self.num_sites as nat;
        let vl = self.vertex_list@;
        &&& forall|u: int|
            0 <= u < vl.len() && #[trigger] leg_key(ops, ns, dual, u) >= 0 ==> {
                let s = leg_key(ops, ns, dual, u);
                &&& self.v_first@[s] <= u
                &&& u <= self.v_last@[s]
            }
        &&& forall|v: int|
            0 <= v < vl.len() && leg_is_lower(dual, v) && #[trigger] vl[v] != EMPTY ==> {
                let s = leg_key(ops, ns, dual, v);
                chain_prev(ops, ns, dual, v, vl[v] as int) || (v == self.v_first@[s] && vl[v] == self.v_last@[s])
            }
    }

    /// Empties the vertex list and the per-key first and last legs.
    fn reset_lists(&mut self)
        requires
            old(self).shape_ok(),
        ensures
            final(self).shape_ok(),
            final(self).vertex_list@ == Seq::new(old(self).vertex_list@.len(), |v: int| EMPTY),
            final(self).v_first@ == Seq::new(old(self).v_first@.len(), |s: int| EMPTY),
            final(self).v_last@ == Seq::new(old(self).v_last@.len(), |s: int| EMPTY),
            *final(self) == (TFIModel {
                vertex_list: final(self).vertex_list,
                v_first: final(self).v_first,
                v_last: final(self).v_last,
                ..*old(self)
            }),
    {
        let mut v: usize = 0;
        while v < 4 * self.m
            invariant
                self.shape_ok(),
                v <= 4 * self.m,
                forall|i: int| 0 <= i < v ==> #[trigger] self.vertex_list@[i] == EMPTY,
                *self == (TFIModel { vertex_list: self.vertex_list, ..*old(self) }),
            decreases 4 * self.m - v,
        {
            self.vertex_list.set(v, EMPTY);
            v = v + 1;
        }
        let ghost mid = *self;
        let mut s: usize = 0;
        while s < self.num_sites
            invariant
                self.shape_ok(),
                s <= self.num_sites,
                forall|i: int| 0 <= i < s ==> #[trigger] self.v_first@[i] == EMPTY,
                forall|i: int| 0 <= i < s ==> #[trigger] self.v_last@[i] == EMPTY,
                *self == (TFIModel { v_first: self.v_first, v_last: self.v_last, ..mid }),
            decreases self.num_sites - s,
        {
            self.v_first.set(s, EMPTY);
            self.v_last.set(s, EMPTY);
            s = s + 1;
        }
        assert(self.vertex_list@ =~= Seq::new(old(self).vertex_list@.len(), |v: int| EMPTY));
        assert(self.v_first@ =~= Seq::new(old(self).v_first@.len(), |s: int| EMPTY));
        assert(self.v_last@ =~= Seq::new(old(self).v_last@.len(), |s: int| EMPTY));
    }

    /// Links the last leg of every non-empty chain back to its first leg, which
    /// closes each chain into a cycle (periodicity in imaginary time).
    fn close_cycles(&mut self, dual: Ghost<bool>)
        requires
            old(self).wf(),
            old(self).build_inv(dual@, keyed_before(old(self).op_string@, old(self).num_sites as nat, dual@, old(self).m as int)),
            old(self).order_inv(dual@, keyed_before(old(self).op_string@, old(self).num_sites as nat, dual@, old(self).m as int)),
        ensures
            final(self).wf(),
            final(self).lists_built(dual@),
            final(self).chains_ordered(dual@),
            *final(self) == (TFIModel { vertex_list: final(self).vertex_list, ..*old(self) }),
    {
        let ghost ops = self.op_string@;
        let ghost ns = self.num_sites as nat;
        let ghost done = keyed_before(ops, ns, dual@, self.m as int);
        proof {
            assert forall|v: int|
                0 <= v < self.vertex_list@.len() && #[trigger] leg_key(ops, ns, dual@, v) >= 0 implies {
                    let k = leg_key(ops, ns, dual@, v);
                    &&& k < ns
                    &&& self.v_first@[k] != EMPTY
                    &&& (self.vertex_list@[v] != EMPTY || (k >= 0 && (v == self.v_first@[k]
                        || v == self.v_last@[k])))
                } by {
                assert(done.contains(v));
            }
            assert(self.legs_covered(ops, ns, dual@, 0));
            assert forall|u: int|
                0 <= u < self.vertex_list@.len() && #[trigger] leg_key(ops, ns, dual@, u) >= 0 implies {
                    let s = leg_key(ops, ns, dual@, u);
                    &&& self.v_first@[s] <= u
                    &&& u <= self.v_last@[s]
                } by {
                assert(done.contains(u));
            }
            assert forall|v: int|
                0 <= v < self.vertex_list@.len() && leg_is_lower(dual@, v) && #[trigger] self.vertex_list@[v] != EMPTY implies {
                    let s = leg_key(ops, ns, dual@, v);
                    chain_prev(ops, ns, dual@, v, self.vertex_list@[v] as int) || (v == self.v_first@[s]
                        && self.vertex_list@[v] == self.v_last@[s])
                } by {
                assert(done.contains(v));
            }
        }
        let mut s: usize = 0;
        while s < self.num_sites
            invariant
                self.wf(),
                s <= self.num_sites,
                ops == self.op_string@,
                ns == self.num_sites,
                done == keyed_before(ops, ns, dual@, self.m as int),
                *self == (TFIModel { vertex_list: self.vertex_list, ..*old(self) }),
                links_paired(self.vertex_list@, ops, ns, dual@),
                forall|v: int|
                    0 <= v < self.vertex_list@.len() && #[trigger] self.vertex_list@[v] != EMPTY
                        ==> leg_key(ops, ns, dual@, v) >= 0,
                forall|t: int|
                    0 <= t < ns ==> (#[trigger] self.v_first@[t] == EMPTY) == (self.v_last@[t] == EMPTY),
                forall|t: int|
                    0 <= t < ns && #[trigger] self.v_first@[t] != EMPTY ==> {
                        let f = self.v_first@[t] as int;
                        &&& 0 <= f < self.vertex_list@.len()
                        &&& leg_key(ops, ns, dual@, f) == t
                        &&& leg_is_lower(dual@, f)
                        &&& (t >= s ==> self.vertex_list@[f] == EMPTY)
                    },
                forall|t: int|
                    0 <= t < ns && #[trigger] self.v_last@[t] != EMPTY ==> {
                        let l = self.v_last@[t] as int;
                        &&& 0 <= l < self.vertex_list@.len()
                        &&& leg_key(ops, ns, dual@, l) == t
                        &&& !leg_is_lower(dual@, l)
                        &&& (t >= s ==> self.vertex_list@[l] == EMPTY)
                    },
                self.legs_covered(ops, ns, dual@, s as int),
                self.chains_ordered(dual@),
            decreases self.num_sites - s,
        {
            let first = self.v_first[s];
            if first != EMPTY {
                let last = self.v_last[s];
                let ghost before = self.vertex_list@;
                proof {
                    assert(self.v_first@[s as int] != EMPTY);
                    assert(self.v_last@[s as int] != EMPTY);
                }
                self.vertex_list.set(first as usize, last);
                self.vertex_list.set(last as usize, first);
                proof {
                    let vl = self.vertex_list@;
                    assert forall|v: int| 0 <= v < vl.len() && #[trigger] vl[v] != EMPTY implies {
                        &&& 0 <= vl[v] < vl.len()
                        &&& vl[v] != v
                        &&& vl[vl[v] as int] == v
                        &&& leg_key(ops, ns, dual@, vl[v] as int) == leg_key(ops, ns, dual@, v)
                    } by {
                        if v != first && v != last {
                            assert(before[v] != EMPTY);
                        }
                    }
                    assert forall|t: int|
                        0 <= t < ns && #[trigger] self.v_first@[t] != EMPTY && t >= s + 1 implies
                            self.vertex_list@[self.v_first@[t] as int] == EMPTY by {
                        assert(self.v_last@[t] != EMPTY);
                    }
                    assert forall|t: int|
                        0 <= t < ns && #[trigger] self.v_last@[t] != EMPTY && t >= s + 1 implies
                            self.vertex_list@[self.v_last@[t] as int] == EMPTY by {
                        assert(self.v_first@[t] != EMPTY);
                    }
                    assert forall|v: int|
                        0 <= v < vl.len() && #[trigger] leg_key(ops, ns, dual@, v) >= 0 implies {
                            let k = leg_key(ops, ns, dual@, v);
                            &&& k < ns
                            &&& self.v_first@[k] != EMPTY
                            &&& (vl[v] != EMPTY || (k >= s + 1 && (v == self.v_first@[k]
                                || v == self.v_last@[k])))
                        } by {
                        let k = leg_key(ops, ns, dual@, v);
                        assert(before[v] != EMPTY || (k >= s && (v == self.v_first@[k] || v == self.v_last@[k])));
                    }
                }
            } else {
                proof {
                    assert forall|v: int|
                        0 <= v < self.vertex_list@.len() && #[trigger] leg_key(ops, ns, dual@, v) >= 0 implies {
                            let k = leg_key(ops, ns, dual@, v);
                            &&& k < ns
                            &&& self.v_first@[k] != EMPTY
                            &&& (self.vertex_list@[v] != EMPTY || (k >= s + 1 && (v
                                == self.v_first@[k] || v == self.v_last@[k])))
                        } by {
                        let k = leg_key(ops, ns, dual@, v);
                        assert(self.vertex_list@[v] != EMPTY || (k >= s && (v == self.v_first@[k]
                            || v == self.v_last@[k])));
                    }
                }
            }
            s = s + 1;
        }
        proof {
            let vl = self.vertex_list@;
            assert forall|v: int| 0 <= v < vl.len() implies (#[trigger] vl[v] != EMPTY) == (leg_key(
                ops,
                ns,
                dual@,
                v,
            ) >= 0) by {
                if leg_key(ops, ns, dual@, v) >= 0 {
                    assert(vl[v] != EMPTY);
                }
            }
            assert forall|t: int| 0 <= t < ns implies (#[trigger] self.v_first@[t] == EMPTY) == (forall|v: int|
                0 <= v < vl.len() ==> leg_key(ops, ns, dual@, v) != t) by {
                if self.v_first@[t] != EMPTY {
                    assert(leg_key(ops, ns, dual@, self.v_first@[t] as int) == t);
                } else {
                    assert forall|v: int| 0 <= v < vl.len() implies leg_key(ops, ns, dual@, v) != t by {
                        if leg_key(ops, ns, dual@, v) == t {
                            assert(vl[v] != EMPTY);
                        }
                    }
                }
            }
        }
    }
}

impl TFIModel {
    /// After slice `p` the attached legs are those of slices `0..=p`.
    proof fn lemma_keyed_next(&self, dual: bool, p: int)
        requires
            self.shape_ok(),
            0 <= p < self.m,
        ensures
            keyed_before(self.op_string@, self.num_sites as nat, dual, p + 1) == ({
                let ops = self.op_string@;
                let ns = self.num_sites as nat;
                let d = keyed_before(ops, ns, dual, p);
                let d0 = if leg_key(ops, ns, dual, 4 * p) >= 0 { d.insert(4 * p) } else { d };
                let d1 = if leg_key(ops, ns, dual, 4 * p + 1) >= 0 { d0.insert(4 * p + 1) } else { d0 };
                let d2 = if leg_key(ops, ns, dual, 4 * p + 2) >= 0 { d1.insert(4 * p + 2) } else { d1 };
                if leg_key(ops, ns, dual, 4 * p + 3) >= 0 { d2.insert(4 * p + 3) } else { d2 }
            }),
    {
        let ops = self.op_string@;
        let ns = self.num_sites as nat;
        let d = keyed_before(ops, ns, dual, p);
        let d0 = if leg_key(ops, ns, dual, 4 * p) >= 0 { d.insert(4 * p) } else { d };
        let d1 = if leg_key(ops, ns, dual, 4 * p + 1) >= 0 { d0.insert(4 * p + 1) } else { d0 };
        let d2 = if leg_key(ops, ns, dual, 4 * p + 2) >= 0 { d1.insert(4 * p + 2) } else { d1 };
        let d3 = if leg_key(ops, ns, dual, 4 * p + 3) >= 0 { d2.insert(4 * p + 3) } else { d2 };
        assert(keyed_before(ops, ns, dual, p + 1) =~= d3);
    }

    /// Builds the site vertex list: each site's legs form one closed chain in
    /// imaginary-time order.
    pub fn make_vertex_list(&mut self)
        requires
            old(self).wf(),
        ensures
            final(self).wf(),
            final(self).lists_built(false),
            final(self).chains_ordered(false),
            *final(self) == (TFIModel {
                vertex_list: final(self).vertex_list,
                v_first: final(self).v_first,
                v_last: final(self).v_last,
                ..*old(self)
            }),
    {
        self.reset_lists();
        let ghost ops = self.op_string@;
        let ghost ns = self.num_sites as nat;
        proof {
            assert(keyed_before(ops, ns, false, 0) =~= Set::empty());
        }
        let mut p: usize = 0;
        while p < self.m
            invariant
                self.wf(),
                p <= self.m,
                ops == self.op_string@,
                ns == self.num_sites,
                self.build_inv(false, keyed_before(ops, ns, false, p as int)),
                self.order_inv(false, keyed_before(ops, ns, false, p as int)),
                *self == (TFIModel {
                    vertex_list: self.vertex_list,
                    v_first: self.v_first,
                    v_last: self.v_last,
                    ..*old(self)
                }),
            decreases self.m - p,
        {
            let op = self.op_string[p];
            let v_leg0 = 4 * p;
            proof {
                lemma_leg_parts(p as int, 0);
                lemma_leg_parts(p as int, 1);
                lemma_leg_parts(p as int, 2);
                lemma_leg_parts(p as int, 3);
                self.lemma_keyed_next(false, p as int);
                assert(op.fits(ns));
            }
            let ghost d = keyed_before(ops, ns, false, p as int);
            if op.is_bond_op() {
                // bond operator: legs 0, 2 on its left site, 1, 3 on its right site
                let b_p = op.index();
                let s0 = self.b_sites[b_p].0;
                let s1 = self.b_sites[b_p].1;
                self.attach_leg(s0, v_leg0, v_leg0 + 2, Ghost(false), Ghost(d));
                self.attach_leg(s1, v_leg0 + 1, v_leg0 + 3, Ghost(false), Ghost(d.insert(v_leg0 as int).insert(v_leg0 + 2)));
                proof {
                    assert(d.insert(v_leg0 as int).insert(v_leg0 + 2).insert(v_leg0 + 1).insert(v_leg0 + 3)
                        =~= keyed_before(ops, ns, false, p + 1));
                }
            } else if op.is_site_op() {
                // site operator: legs 0 and 2
                let s0 = op.index();
                self.attach_leg(s0, v_leg0, v_leg0 + 2, Ghost(false), Ghost(d));
                proof {
                    assert(d.insert(v_leg0 as int).insert(v_leg0 + 2) =~= keyed_before(ops, ns, false, p + 1));
                }
            } else {
                proof {
                    assert(d =~= keyed_before(ops, ns, false, p + 1));
                }
            }
            p = p + 1;
        }
        self.close_cycles(Ghost(false));
    }

    /// Builds the dual vertex list: each bond's legs form one closed chain.
    /// Bond operators put legs 0 and 1 on their bond; site operators bridge the
    /// bond on their left (legs 0, 1) and the bond on their right (legs 2, 3).
    pub fn make_dual_vertex_list(&mut self)
        requires
            old(self).wf(),
        ensures
            final(self).wf(),
            final(self).lists_built(true),
            final(self).chains_ordered(true),
            *final(self) == (TFIModel {
                vertex_list: final(self).vertex_list,
                v_first: final(self).v_first,
                v_last: final(self).v_last,
                ..*old(self)
            }),
    {
        self.reset_lists();
        let ghost ops = self.op_string@;
        let ghost ns = self.num_sites as nat;
        proof {
            assert(keyed_before(ops, ns, true, 0) =~= Set::empty());
        }
        let mut p: usize = 0;
        while p < self.m
            invariant
                self.wf(),
                p <= self.m,
                ops == self.op_string@,
                ns == self.num_sites,
                self.build_inv(true, keyed_before(ops, ns, true, p as int)),
                self.order_inv(true, keyed_before(ops, ns, true, p as int)),
                *self == (TFIModel {
                    vertex_list: self.vertex_list,
                    v_first: self.v_first,
                    v_last: self.v_last,
                    ..*old(self)
                }),
            decreases self.m - p,
        {
            let op = self.op_string[p];
            let v_leg0 = 4 * p;
            proof {
                lemma_leg_parts(p as int, 0);
                lemma_leg_parts(p as int, 1);
                lemma_leg_parts(p as int, 2);
                lemma_leg_parts(p as int, 3);
                self.lemma_keyed_next(true, p as int);
                assert(op.fits(ns));
            }
            let ghost d = keyed_before(ops, ns, true, p as int);
            if op.is_bond_op() {
                // the bond is labelled by its left site
                let b0 = self.b_sites[op.index()].0;
                self.attach_leg(b0, v_leg0, v_leg0 + 1, Ghost(true), Ghost(d));
                proof {
                    assert(d.insert(v_leg0 as int).insert(v_leg0 + 1) =~= keyed_before(ops, ns, true, p + 1));
                }
            } else if op.is_site_op() {
                let b_p = op.index();
                // the bond on the left of the site; site 0 bridges the last key
                let b0 = if b_p == 0 {
                    self.num_sites - 1
                } else {
                    b_p - 1
                };
                proof {
                    let ns = self.num_sites as int;
                    let x = (b_p + ns - 1) as int;
                    if b_p == 0 {
                        vstd::arithmetic::div_mod::lemma_small_mod((ns - 1) as nat, ns as nat);
                    } else {
                        vstd::arithmetic::div_mod::lemma_mod_add_multiples_vanish(b_p - 1, ns);
                        vstd::arithmetic::div_mod::lemma_small_mod((b_p - 1) as nat, ns as nat);
                        assert(x == ns + (b_p - 1));
                    }
                    assert(b0 as int == x % ns);
                }
                let b1 = b_p;
                self.attach_leg(b0, v_leg0, v_leg0 + 1, Ghost(true), Ghost(d));
                self.attach_leg(b1, v_leg0 + 2, v_leg0 + 3, Ghost(true), Ghost(d.insert(v_leg0 as int).insert(v_leg0 + 1)));
                proof {
                    assert(d.insert(v_leg0 as int).insert(v_leg0 + 1).insert(v_leg0 + 2).insert(v_leg0 + 3)
                        =~= keyed_before(ops, ns, true, p + 1));
                }
            } else {
                proof {
                    assert(d =~= keyed_before(ops, ns, true, p + 1));
                }
            }
            p = p + 1;
        }
        self.close_cycles(Ghost(true));
    }
}

} // verus!

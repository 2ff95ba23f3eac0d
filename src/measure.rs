//! Estimators of purity, Renyi-2 entanglement and two-point correlators.
//!
//! Every estimator is a sign `+1` or `-1` per sample; the model keeps their
//! sums and the number of samples, and a bin's averages are the sums divided by
//! the sample count.
use vstd::prelude::*;
use crate::encoding::{rx, rz};
use crate::model::{TFIModel, abs_le, propagate};
use crate::encoding::Op;

verus! {

/// The swap indicator of one register: `-1` on the maximal composite value.
pub open spec fn swap_sign(q: u8) -> int {
    if q == 3 {
        -1
    } else {
        1
    }
}

/// `(-1)^{r_x}`: the factor of a register in a `ZZ` correlator.
pub open spec fn z_sign(q: u8) -> int {
    if rx(q) == 0 {
        1
    } else {
        -1
    }
}

/// `(-1)^{r_z}`: the factor of a register in an `XX` correlator.
pub open spec fn x_sign(q: u8) -> int {
    if rz(q) == 0 {
        1
    } else {
        -1
    }
}

/// Product of the swap signs of the first `k` registers.
pub open spec fn purity_product(q: Seq<u8>, k: nat) -> int
    decreases k,
{
    if k == 0 {
        1
    } else {
        purity_product(q, (k - 1) as nat) * swap_sign(q[k - 1])
    }
}

/// Sum over the slices `p < k` of the swap product of the first `len`
/// registers at imaginary time `p`.
pub open spec fn purity_series(ops: Seq<Op>, q: Seq<u8>, k: nat, len: nat) -> int
    decreases k,
{
    if k == 0 {
        0
    } else {
        purity_series(ops, q, (k - 1) as nat, len) + purity_product(propagate(ops, q, (k - 1) as nat), len)
    }
}

/// Sum over the slices `p < k` of `Z_0 Z_s` at imaginary time `p`.
pub open spec fn zz_series(ops: Seq<Op>, q: Seq<u8>, k: nat, s: int) -> int
    decreases k,
{
    if k == 0 {
        0
    } else {
        let qp = propagate(ops, q, (k - 1) as nat);
        zz_series(ops, q, (k - 1) as nat, s) + z_sign(qp[0]) * z_sign(qp[s])
    }
}

/// Sum over the slices `p < k` of `X_0 X_s` at imaginary time `p`.
pub open spec fn xx_series(ops: Seq<Op>, q: Seq<u8>, k: nat, s: int) -> int
    decreases k,
{
    if k == 0 {
        0
    } else {
        let qp = propagate(ops, q, (k - 1) as nat);
        xx_series(ops, q, (k - 1) as nat, s) + x_sign(qp[0]) * x_sign(qp[s])
    }
}

pub proof fn lemma_purity_product_sign(q: Seq<u8>, k: nat)
    ensures
        purity_product(q, k) == 1 || purity_product(q, k) == -1,
    decreases k,
{
    if k > 0 {
        lemma_purity_product_sign(q, (k - 1) as nat);
    }
}

impl TFIModel {
    fn measure_x(&self, s: usize) -> (r: i64)
        requires
            s < self.qudits@.len(),
        ensures
            r == x_sign(self.qudits@[s as int]),
    {
        if crate::encoding::interaction_bit(self.qudits[s]) == 0 {
            1
        } else {
            -1
        }
    }

    fn measure_z(&self, s: usize) -> (r: i64)
        requires
            s < self.qudits@.len(),
        ensures
            r == z_sign(self.qudits@[s as int]),
    {
        if crate::encoding::field_bit(self.qudits[s]) == 0 {
            1
        } else {
            -1
        }
    }

    fn measure_swap(&self, s: usize) -> (r: i64)
        requires
            s < self.qudits@.len(),
        ensures
            r == swap_sign(self.qudits@[s as int]),
    {
        if self.qudits[s] == 3 {
            -1
        } else {
            1
        }
    }

    /// Product of the swap signs over the sites `0..k`.
    fn measure_purity(&self, k: usize) -> (r: i64)
        requires
            k <= self.qudits@.len(),
        ensures
            r == purity_product(self.qudits@, k as nat),
    {
        let mut prod: i64 = 1;
        let mut s: usize = 0;
        while s < k
            invariant
                s <= k <= self.qudits@.len(),
                prod == purity_product(self.qudits@, s as nat),
            decreases k - s,
        {
            proof {
                lemma_purity_product_sign(self.qudits@, s as nat);
            }
            prod = prod * self.measure_swap(s);
            s = s + 1;
        }
        prod
    }

    fn get_xx_corr2_(&self, s_i: usize, s_j: usize) -> (r: i64)
        requires
            s_i < self.qudits@.len(),
            s_j < self.qudits@.len(),
        ensures
            r == x_sign(self.qudits@[s_i as int]) * x_sign(self.qudits@[s_j as int]),
    {
        self.measure_x(s_i) * self.measure_x(s_j)
    }

    fn get_zz_corr_2(&self, s_i: usize, s_j: usize) -> (r: i64)
        requires
            s_i < self.qudits@.len(),
            s_j < self.qudits@.len(),
        ensures
            r == z_sign(self.qudits@[s_i as int]) * z_sign(self.qudits@[s_j as int]),
    {
        self.measure_z(s_i) * self.measure_z(s_j)
    }

    /// Resets every accumulator and the sample count for a new bin.
    pub fn ini_measure(&mut self)
        requires
            old(self).wf(),
        ensures
            final(self).wf(),
            final(self).samples == 0,
            final(self).purity == 0,
            final(self).partial_purity == 0,
            final(self).zz_corr_2@ == Seq::new(old(self).num_sites as nat, |s: int| 0i64),
            final(self).xx_corr_2@ == Seq::new(old(self).num_sites as nat, |s: int| 0i64),
            *final(self) == (TFIModel {
                samples: final(self).samples,
                purity: final(self).purity,
                partial_purity: final(self).partial_purity,
                zz_corr_2: final(self).zz_corr_2,
                xx_corr_2: final(self).xx_corr_2,
                ..*old(self)
            }),
    {
        self.samples = 0;
        self.purity = 0;
        self.partial_purity = 0;
        let mut s: usize = 0;
        while s < self.num_sites
            invariant
                self.shape_ok(),
                old(self).wf(),
                s <= self.num_sites,
                self.samples == 0,
                self.purity == 0,
                self.partial_purity == 0,
                self.num_sites == old(self).num_sites,
                forall|t: int| 0 <= t < s ==> #[trigger] self.zz_corr_2@[t] == 0,
                forall|t: int| 0 <= t < s ==> #[trigger] self.xx_corr_2@[t] == 0,
                *self == (TFIModel {
                    samples: self.samples,
                    purity: self.purity,
                    partial_purity: self.partial_purity,
                    zz_corr_2: self.zz_corr_2,
                    xx_corr_2: self.xx_corr_2,
                    ..*old(self)
                }),
            decreases self.num_sites - s,
        {
            self.zz_corr_2.set(s, 0);
            self.xx_corr_2.set(s, 0);
            s = s + 1;
        }
        assert(self.zz_corr_2@ =~= Seq::new(old(self).num_sites as nat, |s: int| 0i64));
        assert(self.xx_corr_2@ =~= Seq::new(old(self).num_sites as nat, |s: int| 0i64));
    }

    /// Adds one sample: the swap sign product over the chain and over its first
    /// half, and `Z_0 Z_s`, `X_0 X_s` for every site `s`, all read from the
    /// registers at time zero.
    pub fn measure(&mut self)
        requires
            old(self).wf(),
            old(self).samples < i64::MAX,
        ensures
            final(self).wf(),
            final(self).samples == old(self).samples + 1,
            final(self).purity == old(self).purity + purity_product(
                old(self).qudits@,
                old(self).num_sites as nat,
            ),
            final(self).partial_purity == old(self).partial_purity + purity_product(
                old(self).qudits@,
                (old(self).num_sites / 2) as nat,
            ),
            forall|s: int|
                0 <= s < old(self).num_sites ==> #[trigger] final(self).zz_corr_2@[s] == old(
                    self,
                ).zz_corr_2@[s] + z_sign(old(self).qudits@[0]) * z_sign(old(self).qudits@[s]),
            forall|s: int|
                0 <= s < old(self).num_sites ==> #[trigger] final(self).xx_corr_2@[s] == old(
                    self,
                ).xx_corr_2@[s] + x_sign(old(self).qudits@[0]) * x_sign(old(self).qudits@[s]),
            *final(self) == (TFIModel {
                samples: final(self).samples,
                purity: final(self).purity,
                partial_purity: final(self).partial_purity,
                zz_corr_2: final(self).zz_corr_2,
                xx_corr_2: final(self).xx_corr_2,
                ..*old(self)
            }),
    {
        let all = self.measure_purity(self.num_sites);
        let half = self.measure_purity(self.num_sites / 2);
        proof {
            lemma_purity_product_sign(self.qudits@, self.num_sites as nat);
            lemma_purity_product_sign(self.qudits@, (self.num_sites / 2) as nat);
        }
        self.purity = self.purity + all;
        self.partial_purity = self.partial_purity + half;
        self.samples = self.samples + 1;
        let mut s: usize = 0;
        while s < self.num_sites
            invariant
                s <= self.num_sites,
                self.shape_ok(),
                self.samples == old(self).samples + 1,
                self.samples <= i64::MAX,
                self.num_sites == old(self).num_sites,
                self.qudits == old(self).qudits,
                abs_le(self.purity as int, self.samples as int),
                abs_le(self.partial_purity as int, self.samples as int),
                self.purity == old(self).purity + purity_product(old(self).qudits@, old(self).num_sites as nat),
                self.partial_purity == old(self).partial_purity + purity_product(
                    old(self).qudits@,
                    (old(self).num_sites / 2) as nat,
                ),
                forall|t: int|
                    0 <= t < s ==> #[trigger] self.zz_corr_2@[t] == old(self).zz_corr_2@[t] + z_sign(
                        old(self).qudits@[0],
                    ) * z_sign(old(self).qudits@[t]),
                forall|t: int|
                    0 <= t < s ==> #[trigger] self.xx_corr_2@[t] == old(self).xx_corr_2@[t] + x_sign(
                        old(self).qudits@[0],
                    ) * x_sign(old(self).qudits@[t]),
                forall|t: int|
                    s <= t < self.num_sites ==> #[trigger] self.zz_corr_2@[t] == old(self).zz_corr_2@[t],
                forall|t: int|
                    s <= t < self.num_sites ==> #[trigger] self.xx_corr_2@[t] == old(self).xx_corr_2@[t],
                old(self).accumulators_ok(),
                old(self).shape_ok(),
                *self == (TFIModel {
                    samples: self.samples,
                    purity: self.purity,
                    partial_purity: self.partial_purity,
                    zz_corr_2: self.zz_corr_2,
                    xx_corr_2: self.xx_corr_2,
                    ..*old(self)
                }),
            decreases self.num_sites - s,
        {
            let zz = self.get_zz_corr_2(0, s);
            let xx = self.get_xx_corr2_(0, s);
            assert(abs_le(old(self).zz_corr_2@[s as int] as int, old(self).samples as int));
            assert(abs_le(old(self).xx_corr_2@[s as int] as int, old(self).samples as int));
            let z_old = self.zz_corr_2[s];
            let x_old = self.xx_corr_2[s];
            self.zz_corr_2.set(s, z_old + zz);
            self.xx_corr_2.set(s, x_old + xx);
            s = s + 1;
        }
        proof {
            assert forall|t: int| 0 <= t < self.zz_corr_2@.len() implies abs_le(
                #[trigger] self.zz_corr_2@[t] as int,
                self.samples as int,
            ) by {
                assert(abs_le(old(self).zz_corr_2@[t] as int, old(self).samples as int));
            }
            assert forall|t: int| 0 <= t < self.xx_corr_2@.len() implies abs_le(
                #[trigger] self.xx_corr_2@[t] as int,
                self.samples as int,
            ) by {
                assert(abs_le(old(self).xx_corr_2@[t] as int, old(self).samples as int));
            }
        }
    }
}

} // verus!

//! Monte Carlo sweeps and the truncation manager.
use vstd::prelude::*;
use crate::acceptance::MAX_ORDER;
use crate::measure::{purity_series, zz_series, xx_series};
use crate::encoding::{Op, EMPTY, NULL_QUDIT};
use crate::model::{TFIModel, extend_with, lemma_count_null_suffix, lemma_count_le_len};

verus! {

/// The truncation order after growth: `n + n / 3` when that exceeds `m`, within
/// the largest order handled.
pub open spec fn grown_order(m: nat, n: nat) -> nat {
    let target = if n + n / 3 > MAX_ORDER {
        MAX_ORDER as nat
    } else {
        n + n / 3
    };
    if m < target {
        target
    } else {
        m
    }
}

impl TFIModel {
    /// Grows the truncation order to `n + n / 3` when that exceeds it: the
    /// operator string is padded with null slots, the snapshots with
    /// `NULL_QUDIT` and the vertex list with `EMPTY`, and the stack is given
    /// room for `8 m` legs. Everything already there keeps its place and its
    /// value; the order never shrinks.
    pub fn adjust_m(&mut self)
        requires
            old(self).wf(),
        ensures
            final(self).wf(),
            final(self).m == grown_order(old(self).m as nat, old(self).n as nat),
            final(self).m >= old(self).m,
            final(self).op_string@ == old(self).op_string@ + Seq::new(
                (final(self).m - old(self).m) as nat,
                |i: int| Op::Null,
            ),
            final(self).left_qudits@ == old(self).left_qudits@ + Seq::new(
                (final(self).m - old(self).m) as nat,
                |i: int| NULL_QUDIT,
            ),
            final(self).right_qudits@ == old(self).right_qudits@ + Seq::new(
                (final(self).m - old(self).m) as nat,
                |i: int| NULL_QUDIT,
            ),
            final(self).vertex_list@ == old(self).vertex_list@ + Seq::new(
                (4 * final(self).m - 4 * old(self).m) as nat,
                |i: int| EMPTY,
            ),
            final(self).m == old(self).m ==> *final(self) == *old(self),
            *final(self) == (TFIModel {
                op_string: final(self).op_string,
                m: final(self).m,
                vertex_list: final(self).vertex_list,
                stack: final(self).stack,
                left_qudits: final(self).left_qudits,
                right_qudits: final(self).right_qudits,
                ..*old(self)
            }),
            final(self).stack@ == old(self).stack@,
    {
        proof {
            lemma_count_le_len(self.op_string@);
        }
        let grown = self.n + self.n / 3;
        let new_m = if grown > MAX_ORDER {
            MAX_ORDER
        } else {
            grown
        };
        if self.m < new_m {
            let ghost ops0 = self.op_string@;
            extend_with(&mut self.op_string, Op::Null, new_m);
            extend_with(&mut self.left_qudits, NULL_QUDIT, new_m);
            extend_with(&mut self.right_qudits, NULL_QUDIT, new_m);
            extend_with(&mut self.vertex_list, EMPTY, 4 * new_m);
            self.stack.reserve(8 * new_m);
            proof {
                lemma_count_null_suffix(ops0, (new_m - self.m) as nat);
            }
            self.m = new_m;
            proof {
                assert forall|p: int| 0 <= p < self.m implies (#[trigger] self.op_string@[p]).fits(
                    self.num_sites as nat,
                ) by {
                    if p < old(self).m {
                        assert(self.op_string@[p] == ops0[p]);
                    }
                }
            }
        } else {
            proof {
                assert(self.op_string@ =~= self.op_string@ + Seq::new(0, |i: int| Op::Null));
                assert(self.left_qudits@ =~= self.left_qudits@ + Seq::new(0, |i: int| NULL_QUDIT));
                assert(self.right_qudits@ =~= self.right_qudits@ + Seq::new(0, |i: int| NULL_QUDIT));
                assert(self.vertex_list@ =~= self.vertex_list@ + Seq::new(0, |i: int| EMPTY));
            }
        }
    }

    /// One thermalizing sweep: diagonal update, loop cluster update, snapshot
    /// refresh, bond cluster update, and growth of the truncation order.
    pub fn mc_thermalizing(&mut self)
        requires
            old(self).wf(),
        ensures
            final(self).wf(),
            final(self).m == grown_order(old(self).m as nat, final(self).n as nat),
            final(self).m >= old(self).m,
            final(self).num_sites == old(self).num_sites,
            final(self).weights == old(self).weights,
            final(self).samples == old(self).samples,
            final(self).purity == old(self).purity,
            final(self).partial_purity == old(self).partial_purity,
            final(self).zz_corr_2 == old(self).zz_corr_2,
            final(self).xx_corr_2 == old(self).xx_corr_2,
            final(self).stack@.len() == 0,
    {
        self.diag_update();
        self.cluster_update();
        self.refresh_left_right_qudits();
        self.bond_cluster_update();
        self.adjust_m();
    }

    /// One sampling sweep: diagonal update with one measurement per slice, loop
    /// cluster update, snapshot refresh and bond cluster update. The
    /// truncation order stays.
    pub fn mc_sampling(&mut self)
        requires
            old(self).wf(),
            old(self).samples + old(self).m <= i64::MAX,
        ensures
            final(self).wf(),
            final(self).m == old(self).m,
            final(self).num_sites == old(self).num_sites,
            final(self).samples == old(self).samples + old(self).m,
            final(self).purity == old(self).purity + purity_series(
                old(self).op_string@,
                old(self).qudits@,
                old(self).m as nat,
                old(self).num_sites as nat,
            ),
            final(self).partial_purity == old(self).partial_purity + purity_series(
                old(self).op_string@,
                old(self).qudits@,
                old(self).m as nat,
                (old(self).num_sites / 2) as nat,
            ),
            forall|s: int|
                0 <= s < old(self).num_sites ==> #[trigger] final(self).zz_corr_2@[s] == old(self).zz_corr_2@[s]
                    + zz_series(old(self).op_string@, old(self).qudits@, old(self).m as nat, s),
            forall|s: int|
                0 <= s < old(self).num_sites ==> #[trigger] final(self).xx_corr_2@[s] == old(self).xx_corr_2@[s]
                    + xx_series(old(self).op_string@, old(self).qudits@, old(self).m as nat, s),
            final(self).stack@.len() == 0,
    {
        self.diag_update_with_measure();
        self.cluster_update();
        self.refresh_left_right_qudits();
        self.bond_cluster_update();
    }
}

} // verus!

use bell_sse::acceptance::{
    compute_weights, does_coin_flip, does_insertion_accept, does_removal_accept, is_insertion_certain,
    is_removal_certain, is_site_chosen, Rational, DRAW_SCALE,
};
use bell_sse::encoding::{
    field_bit, flip_operator, interaction_bit, neighbor_leg, time_partner_leg, to_back, toggle_field,
    toggle_interaction, Op, EMPTY, NULL_QUDIT,
};
use bell_sse::diagonal::diag_slot_decision;
use bell_sse::model::TFIModel;
use prng_mt::MT19937;

fn model(l: usize, beta: (u16, u16), j: (u16, u16), h: (u16, u16), seed: u32) -> TFIModel {
    let mut m = TFIModel::new(
        l,
        Rational::new(beta.0, beta.1),
        Rational::new(j.0, j.1),
        Rational::new(h.0, h.1),
        seed,
    );
    m.init();
    m
}

fn count_non_null(ops: &[Op]) -> usize {
    ops.iter().filter(|op| **op != Op::Null).count()
}

#[test]
fn init_gives_empty_configuration() {
    let m = model(4, (1, 1), (1, 1), (1, 1), 7);
    assert_eq!(m.m, 10);
    assert_eq!(m.n, 0);
    assert_eq!(m.num_sites, 4);
    assert_eq!(m.num_bonds, 3);
    assert_eq!(m.b_sites, vec![(0, 1), (1, 2), (2, 3)]);
    assert!(m.op_string.iter().all(|op| *op == Op::Null));
    assert_eq!(m.qudits, vec![0u8; 4]);
    assert_eq!(m.left_qudits, vec![NULL_QUDIT; 10]);
    assert_eq!(m.vertex_list, vec![EMPTY; 40]);
}

#[test]
fn register_bits_and_toggles() {
    assert_eq!(field_bit(0b01), 1);
    assert_eq!(field_bit(0b10), 0);
    assert_eq!(interaction_bit(0b10), 1);
    assert_eq!(interaction_bit(0b01), 0);
    assert_eq!(toggle_field(0b10), 0b11);
    assert_eq!(toggle_field(0b11), 0b10);
    assert_eq!(toggle_interaction(0b01), 0b11);
    assert_eq!(toggle_interaction(0b11), 0b01);
}

#[test]
fn leg_navigation() {
    assert_eq!(time_partner_leg(4), 6);
    assert_eq!(time_partner_leg(7), 5);
    assert_eq!(neighbor_leg(8), 9);
    assert_eq!(neighbor_leg(11), 10);
    assert_eq!(to_back(12), 13);
    assert_eq!(to_back(13), 12);
}

#[test]
fn operator_flip_keeps_target() {
    assert_eq!(flip_operator(Op::DiagSite(3)), Op::OffDiagSite(3));
    assert_eq!(flip_operator(Op::OffDiagSite(3)), Op::DiagSite(3));
    assert_eq!(flip_operator(Op::DiagBond(1)), Op::OffDiagBond(1));
    assert_eq!(flip_operator(Op::OffDiagBond(1)), Op::DiagBond(1));
    assert_eq!(flip_operator(Op::Null), Op::Null);
}

#[test]
fn weights_of_small_chain() {
    // beta = 1/2, J = 3/4, h = 2, L = 3
    let w = compute_weights(Rational::new(1, 2), Rational::new(3, 4), Rational::new(2, 1), 3);
    // h L = 2 * 3 = 6 -> 24/4 ; J (L - 1) = 3/4 * 2 -> 6/4
    assert_eq!(w.field, 24);
    assert_eq!(w.bond, 6);
    // add_factor = 1/2 * 30/4 = 30/8
    assert_eq!(w.add_num, 30);
    assert_eq!(w.add_den, 8);
}

#[test]
fn detailed_balance_on_two_sites() {
    // L = 2, beta = J = h = 1: add_factor = 3, remove_factor = 1/3
    let w = compute_weights(Rational::new(1, 1), Rational::new(1, 1), Rational::new(1, 1), 2);
    assert_eq!((w.add_num, w.add_den), (3, 1));
    // m = 10, n = 0: insertion 3/10 is not certain, removal at n = 1 is 10/3, certain
    assert!(!is_insertion_certain(&w, 10));
    assert!(is_removal_certain(&w, 10));
    // m = 3, n = 0: insertion 3/3 certain, removal at n = 1 is 3/3 certain too
    assert!(is_insertion_certain(&w, 3));
    assert!(is_removal_certain(&w, 3));
    // m = 2, n = 0: insertion 3/2, removal at n = 1 is 2/3, accepted below 2/3
    assert!(is_insertion_certain(&w, 2));
    assert!(!is_removal_certain(&w, 2));
    let two_thirds = (2 * DRAW_SCALE / 3) as u32;
    assert!(does_removal_accept(&w, 2, two_thirds));
    assert!(!does_removal_accept(&w, 2, two_thirds + 2));
    // insertion 3/10 accepted below 3/10 of the draw range
    let point_three = (3 * DRAW_SCALE / 10) as u32;
    assert!(does_insertion_accept(&w, 10, point_three));
    assert!(!does_insertion_accept(&w, 10, point_three + 2));
}

#[test]
fn site_selection_and_coin() {
    // field 2, bond 1: a site is chosen below two thirds of the draw range
    let w = compute_weights(Rational::new(1, 1), Rational::new(1, 1), Rational::new(1, 1), 2);
    let two_thirds = (2 * DRAW_SCALE / 3) as u32;
    assert!(is_site_chosen(&w, two_thirds - 1));
    assert!(!is_site_chosen(&w, two_thirds + 1));
    assert!(!does_coin_flip((DRAW_SCALE / 2) as u32));
    assert!(does_coin_flip((DRAW_SCALE / 2 + 1) as u32));
}

#[test]
fn operator_count_matches_string() {
    let mut m = model(6, (4, 1), (1, 1), (1, 2), 11);
    for _ in 0..200 {
        m.mc_thermalizing();
        assert_eq!(m.n, count_non_null(&m.op_string));
        assert!(m.n <= m.m);
    }
    for _ in 0..20 {
        m.mc_sampling();
        assert_eq!(m.n, count_non_null(&m.op_string));
    }
}

fn check_pairs(m: &TFIModel) {
    for v in 0..m.vertex_list.len() {
        let w = m.vertex_list[v];
        if w != EMPTY {
            assert!(w >= 0 && (w as usize) < m.vertex_list.len());
            assert_ne!(w as usize, v);
            assert_eq!(m.vertex_list[w as usize], v as i64);
        }
    }
}

#[test]
fn vertex_lists_close_into_pairs() {
    let mut m = model(5, (3, 1), (1, 1), (1, 1), 5);
    for _ in 0..100 {
        m.mc_thermalizing();
        m.make_vertex_list();
        check_pairs(&m);
        let used = (0..m.vertex_list.len()).filter(|v| m.vertex_list[*v] != EMPTY).count();
        let expected: usize = m
            .op_string
            .iter()
            .map(|op| match op {
                Op::Null => 0,
                Op::DiagSite(_) | Op::OffDiagSite(_) => 2,
                Op::DiagBond(_) | Op::OffDiagBond(_) => 4,
            })
            .sum();
        assert_eq!(used, expected);
        m.make_dual_vertex_list();
        check_pairs(&m);
    }
}

#[test]
fn registers_and_estimates_stay_bounded() {
    let mut m = model(6, (2, 1), (1, 1), (3, 2), 99);
    for _ in 0..100 {
        m.mc_thermalizing();
        assert!(m.qudits.iter().all(|q| *q < 4));
    }
    m.ini_measure();
    for _ in 0..20 {
        m.mc_sampling();
        assert!(m.qudits.iter().all(|q| *q < 4));
    }
    let samples = m.samples as i64;
    assert_eq!(m.samples, 20 * m.m as u64);
    assert!(m.purity.abs() <= samples);
    assert!(m.partial_purity.abs() <= samples);
    assert!(m.zz_corr_2.iter().all(|x| x.abs() <= samples));
    assert!(m.xx_corr_2.iter().all(|x| x.abs() <= samples));
    // Z_0 Z_0 and X_0 X_0 are one on every sample
    assert_eq!(m.zz_corr_2[0], samples);
    assert_eq!(m.xx_corr_2[0], samples);
}

#[test]
fn measurement_of_known_registers() {
    let mut m = model(4, (1, 1), (1, 1), (1, 1), 1);
    m.qudits = vec![0b11, 0b01, 0b10, 0b11];
    m.ini_measure();
    m.measure();
    // swap signs -1, 1, 1, -1
    assert_eq!(m.purity, 1);
    assert_eq!(m.partial_purity, -1);
    // Z factors (-1)^{r_x}: -1, -1, 1, -1
    assert_eq!(m.zz_corr_2, vec![1, 1, -1, 1]);
    // X factors (-1)^{r_z}: -1, 1, -1, -1
    assert_eq!(m.xx_corr_2, vec![1, -1, 1, 1]);
    assert_eq!(m.samples, 1);
}

#[test]
fn truncation_order_only_grows() {
    let mut m = model(8, (8, 1), (1, 1), (1, 1), 3);
    let mut previous_m = m.m;
    for _ in 0..100 {
        m.diag_update();
        m.cluster_update();
        m.refresh_left_right_qudits();
        m.bond_cluster_update();
        let before = m.op_string.clone();
        let left = m.left_qudits.clone();
        let vl = m.vertex_list.clone();
        let n = m.n;
        m.adjust_m();
        assert_eq!(&m.left_qudits[..left.len()], &left[..]);
        assert!(m.left_qudits[left.len()..].iter().all(|q| *q == NULL_QUDIT));
        assert_eq!(&m.vertex_list[..vl.len()], &vl[..]);
        assert!(m.vertex_list[vl.len()..].iter().all(|x| *x == EMPTY));
        assert!(m.m >= previous_m);
        assert_eq!(&m.op_string[..before.len()], &before[..]);
        assert!(m.op_string[before.len()..].iter().all(|op| *op == Op::Null));
        if before.len() < n + n / 3 {
            assert_eq!(m.m, n + n / 3);
        } else {
            assert_eq!(m.m, before.len());
        }
        assert_eq!(m.vertex_list.len(), 4 * m.m);
        previous_m = m.m;
    }
    assert!(m.m > 10);
}

#[test]
fn first_diagonal_pass_follows_the_random_stream() {
    // L = 2, beta = J = h = 1, seed 42: add_factor = 3, site weight 2 of 3
    let mut m = model(2, (1, 1), (1, 1), (1, 1), 42);
    m.diag_update();

    let scale = DRAW_SCALE;
    let mut rng = MT19937::new(42);
    let mut expected = vec![Op::Null; 10];
    let mut n: u64 = 0;
    for slot in expected.iter_mut() {
        let free = 10 - n;
        let accept = if 3 >= free {
            true
        } else {
            let r = (rng.next() % u32::MAX) as u64;
            r * free <= 3 * scale
        };
        if accept {
            let r = (rng.next() % u32::MAX) as u64;
            if r * 3 < 2 * scale {
                *slot = Op::DiagSite(rng.next() as usize % 2);
            } else {
                *slot = Op::DiagBond(rng.next() as usize % 1);
            }
            n += 1;
        }
    }
    assert_eq!(m.op_string, expected);
    assert_eq!(m.n as u64, n);
    assert_eq!(m.qudits, vec![0, 0]);
    for p in 0..10 {
        match expected[p] {
            Op::Null => assert_eq!((m.left_qudits[p], m.right_qudits[p]), (NULL_QUDIT, NULL_QUDIT)),
            Op::DiagSite(_) => assert_eq!((m.left_qudits[p], m.right_qudits[p]), (0, NULL_QUDIT)),
            _ => assert_eq!((m.left_qudits[p], m.right_qudits[p]), (0, 0)),
        }
    }
}

#[test]
fn free_sites_flip_half_the_time() {
    let mut m = model(4, (1, 1), (1, 1), (1, 1), 2024);
    let trials = 4000;
    let mut flips = [0usize; 4];
    for _ in 0..trials {
        let before = m.qudits.clone();
        m.cluster_update();
        for s in 0..4 {
            if m.qudits[s] != before[s] {
                assert_eq!(m.qudits[s], before[s] ^ 1);
                flips[s] += 1;
            }
        }
    }
    assert_eq!(m.n, 0);
    for s in 0..4 {
        let freq = flips[s] as f64 / trials as f64;
        assert!((freq - 0.5).abs() < 0.05, "site {} flipped with frequency {}", s, freq);
    }
}

#[test]
fn refresh_without_moves_reproduces_snapshots() {
    // beta = 0: add_factor = 0, so nothing is inserted and nothing is left to remove
    let mut m = model(3, (0, 1), (1, 1), (1, 1), 8);
    m.op_string = vec![
        Op::OffDiagSite(1),
        Op::Null,
        Op::OffDiagBond(0),
        Op::OffDiagSite(1),
        Op::Null,
        Op::Null,
        Op::OffDiagBond(0),
        Op::Null,
        Op::Null,
        Op::Null,
    ];
    m.n = 4;
    m.qudits = vec![1, 2, 3];
    m.diag_update();
    let left = m.left_qudits.clone();
    let right = m.right_qudits.clone();
    assert_eq!(m.qudits, vec![1, 2, 3]);
    assert_eq!(left[0], 2);
    assert_eq!(left[2], 1);
    assert_eq!(right[2], 3);
    m.refresh_left_right_qudits();
    assert_eq!(m.left_qudits, left);
    assert_eq!(m.right_qudits, right);
}

#[test]
fn refresh_after_sweeps_reproduces_snapshots() {
    let mut m = model(6, (4, 1), (1, 1), (1, 1), 17);
    for _ in 0..50 {
        m.mc_thermalizing();
        m.diag_update();
        let left = m.left_qudits.clone();
        let right = m.right_qudits.clone();
        let q = m.qudits.clone();
        m.refresh_left_right_qudits();
        assert_eq!(m.qudits, q);
        assert_eq!(m.left_qudits, left);
        assert_eq!(m.right_qudits, right);
    }
}

#[test]
fn stack_is_last_in_first_out() {
    let mut m = model(3, (1, 1), (1, 1), (1, 1), 4);
    m.stack_initialize();
    m.stack_push(5);
    m.stack_push(9);
    m.stack_push(2);
    assert_eq!(m.stack_pop(), 2);
    assert_eq!(m.stack_pop(), 9);
    m.stack_push(7);
    assert_eq!(m.stack_pop(), 7);
    assert_eq!(m.stack_pop(), 5);
    assert!(m.stack.is_empty());
}

#[test]
fn random_draws_stay_in_range_and_follow_the_seed() {
    let mut a = model(5, (1, 1), (1, 1), (1, 1), 42);
    let mut rng = MT19937::new(42);
    for _ in 0..1000 {
        let p = a.rand_prob();
        assert!((p as u64) < DRAW_SCALE);
        assert_eq!(p, rng.next() % u32::MAX);
        let s = a.rand_site();
        assert!(s < 5);
        assert_eq!(s, rng.next() as usize % 5);
        let bond = a.rand_bond();
        assert!(bond < 4);
        assert_eq!(bond, rng.next() as usize % 4);
        let q = a.rand_qudit();
        assert!(q < 4);
        assert_eq!(q, (rng.next() % 4) as u8);
    }
}

#[test]
fn same_seed_gives_same_run() {
    let mut a = model(6, (3, 1), (1, 1), (1, 1), 2025);
    let mut b = model(6, (3, 1), (1, 1), (1, 1), 2025);
    for _ in 0..50 {
        a.mc_thermalizing();
        b.mc_thermalizing();
    }
    assert_eq!(a.op_string, b.op_string);
    assert_eq!(a.qudits, b.qudits);
    assert_eq!(a.m, b.m);
}

#[test]
fn slot_decisions_with_zero_draws_fill_every_slot() {
    // L = 2, beta = J = h = 1: add_factor 3; every draw 0 accepts and picks site 0
    let w = compute_weights(Rational::new(1, 1), Rational::new(1, 1), Rational::new(1, 1), 2);
    let mut ops = vec![Op::Null; 10];
    let mut n = 0usize;
    for slot in ops.iter_mut() {
        *slot = diag_slot_decision(&w, *slot, 10 - n, 2, 0, 0, 0);
        if *slot != Op::Null {
            n += 1;
        }
    }
    assert_eq!(ops, vec![Op::DiagSite(0); 10]);
    assert_eq!(n, 10);
}

#[test]
fn slot_decisions_with_high_draws_insert_nothing() {
    // acceptance 3/10 < 0.99 at the first slot, and the string stays empty
    let w = compute_weights(Rational::new(1, 1), Rational::new(1, 1), Rational::new(1, 1), 2);
    let high = (99 * DRAW_SCALE / 100) as u32;
    for _ in 0..10 {
        assert_eq!(diag_slot_decision(&w, Op::Null, 10, 2, high, high, high), Op::Null);
    }
    // with 3 free slots insertion is certain: the draw no longer matters
    assert_eq!(diag_slot_decision(&w, Op::Null, 3, 2, high, 0, 5), Op::DiagSite(1));
}

#[test]
fn slot_decisions_remove_and_keep() {
    let w = compute_weights(Rational::new(1, 1), Rational::new(1, 1), Rational::new(1, 1), 3);
    // add_factor = 1 * (3 + 2) = 5; removal over free + 1 = 10 slots is certain
    assert_eq!((w.add_num, w.add_den), (5, 1));
    assert_eq!(diag_slot_decision(&w, Op::DiagSite(2), 9, 3, 0, 0, 0), Op::Null);
    // over 2 slots removal is 2/5: accepted at 0.4, refused just above
    let two_fifths = (2 * DRAW_SCALE / 5) as u32;
    assert_eq!(diag_slot_decision(&w, Op::DiagBond(1), 1, 3, two_fifths, 0, 0), Op::Null);
    assert_eq!(diag_slot_decision(&w, Op::DiagBond(1), 1, 3, two_fifths + 2, 0, 0), Op::DiagBond(1));
    // off-diagonal operators stay whatever the draws
    assert_eq!(diag_slot_decision(&w, Op::OffDiagSite(0), 1, 3, 0, 0, 0), Op::OffDiagSite(0));
    assert_eq!(diag_slot_decision(&w, Op::OffDiagBond(0), 9, 3, 0, 0, 0), Op::OffDiagBond(0));
    // a high kind draw picks a bond: index 7 % 2 = 1
    let high = (9 * DRAW_SCALE / 10) as u32;
    assert_eq!(diag_slot_decision(&w, Op::Null, 3, 3, 0, high, 7), Op::DiagBond(1));
    // a low one picks a site: index 7 % 3 = 1
    assert_eq!(diag_slot_decision(&w, Op::Null, 3, 3, 0, 0, 7), Op::DiagSite(1));
}

#[test]
fn frozen_site_operators_never_flip() {
    // beta = 0: the diagonal update leaves the string alone
    let mut m = model(2, (0, 1), (1, 1), (1, 1), 6);
    m.op_string[0] = Op::DiagSite(0);
    m.op_string[3] = Op::DiagSite(1);
    m.n = 2;
    m.qudits = vec![0b10, 0b10];
    for _ in 0..200 {
        m.refresh_left_right_qudits();
        m.cluster_update();
        assert_eq!(m.op_string[0], Op::DiagSite(0));
        assert_eq!(m.op_string[3], Op::DiagSite(1));
        assert!(m.stack.is_empty());
    }
}

#[test]
fn frozen_bond_operators_never_flip() {
    let mut m = model(2, (0, 1), (1, 1), (1, 1), 6);
    m.op_string[2] = Op::DiagBond(0);
    m.n = 1;
    for _ in 0..200 {
        // registers that differ in r_x
        m.qudits = vec![0b01, 0b00];
        m.refresh_left_right_qudits();
        m.bond_cluster_update();
        assert_eq!(m.op_string[2], Op::DiagBond(0));
        assert!(m.stack.is_empty());
    }
}

#[test]
fn bond_update_toggles_all_field_bits_or_none() {
    let mut m = model(7, (3, 1), (1, 1), (1, 1), 31);
    let mut toggled = 0;
    for _ in 0..200 {
        m.diag_update();
        m.cluster_update();
        m.refresh_left_right_qudits();
        let before = m.qudits.clone();
        m.bond_cluster_update();
        let changed: Vec<bool> = (0..7).map(|s| (m.qudits[s] & 1) != (before[s] & 1)).collect();
        assert!(changed.iter().all(|c| *c) || changed.iter().all(|c| !*c));
        if changed[0] {
            toggled += 1;
        }
        assert!(m.stack.is_empty());
    }
    assert!(toggled > 50 && toggled < 150);
}

#[test]
fn sampling_pass_measures_every_slice() {
    // beta = 0 and no operators: every slice sees the same registers
    let mut m = model(4, (0, 1), (1, 1), (1, 1), 12);
    m.qudits = vec![0b11, 0b01, 0b10, 0b11];
    m.ini_measure();
    m.diag_update_with_measure();
    assert_eq!(m.samples, 10);
    assert_eq!(m.purity, 10);
    assert_eq!(m.partial_purity, -10);
    assert_eq!(m.zz_corr_2, vec![10, 10, -10, 10]);
    assert_eq!(m.xx_corr_2, vec![10, -10, 10, 10]);
}

#[test]
fn site_chains_follow_slot_order() {
    let mut m = model(5, (3, 1), (1, 1), (1, 1), 77);
    for _ in 0..60 {
        m.mc_thermalizing();
        m.make_vertex_list();
        for s in 0..5 {
            // slots whose operator touches site s, in order
            let slots: Vec<usize> = (0..m.m)
                .filter(|p| match m.op_string[*p] {
                    Op::Null => false,
                    Op::DiagSite(t) | Op::OffDiagSite(t) => t == s,
                    Op::DiagBond(b) | Op::OffDiagBond(b) => b == s || b + 1 == s,
                })
                .collect();
            if slots.is_empty() {
                assert_eq!(m.v_first[s], EMPTY);
                continue;
            }
            let v = m.v_first[s] as usize;
            let mut w = v;
            let mut visited = Vec::new();
            loop {
                visited.push(w / 4);
                w = m.vertex_list[w ^ 2] as usize;
                if w == v {
                    break;
                }
                assert!(visited.len() <= slots.len());
            }
            assert_eq!(visited, slots);
        }
    }
}

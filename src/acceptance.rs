//! Acceptance rules of the diagonal update, in exact rational arithmetic.
//!
//! A draw is a word `r` in `[0, u32::MAX)`, standing for the probability
//! `r / u32::MAX`. Coupling constants are non-negative rationals.
use vstd::prelude::*;

verus! {

/// Denominator of every uniform draw.
pub const DRAW_SCALE: u64 = 0xFFFF_FFFF;

/// A non-negative rational `num / den`, the form in which the chain's
/// couplings and inverse temperature enter the engine.
#[derive(Clone, Copy, Debug, PartialEq, Eq, Structural)]
pub struct Rational {
    pub num: u16,
    pub den: u16,
}

impl Rational {
    pub open spec fn valid(self) -> bool {
        self.den > 0
    }

    pub fn new(num: u16, den: u16) -> (r: Rational)
        requires
            den > 0,
        ensures
            r.num == num,
            r.den == den,
            r.valid(),
    {
        Rational { num, den }
    }
}

/// The weights of one sweep: the field weight `h * L`, the bond weight
/// `J * (L - 1)` over a common denominator, and `add_factor = beta * (h * L +
/// J * (L - 1))` as `add_num / add_den`.
#[derive(Clone, Copy, Debug, PartialEq, Eq, Structural)]
pub struct Weights {
    pub field: u128,
    pub bond: u128,
    pub add_num: u128,
    pub add_den: u128,
}

/// Largest chain handled: a site index fits 32 bits, which keeps every product
/// below in 128 bits.
pub const MAX_SITES: usize = 0xFFFF_FFFF;

/// Largest truncation order: it keeps the `8 m` legs and stack entries of the
/// buffers addressable with a 32-bit `usize`, and the products below in 128
/// bits.
pub const MAX_ORDER: usize = 0x400_0000;

pub open spec fn weights_of(beta: Rational, j: Rational, h: Rational, num_sites: nat) -> Weights {
    let field = h.num * j.den * num_sites;
    let bond = j.num * h.den * (num_sites - 1);
    Weights {
        field: field as u128,
        bond: bond as u128,
        add_num: (beta.num * (field + bond)) as u128,
        add_den: (beta.den * h.den * j.den) as u128,
    }
}

impl Weights {
    /// The bounds that `compute_weights` gives and the rules below rely on.
    pub open spec fn bounded(self) -> bool {
        &&& self.field < 0x1_0000_0000_0000_0000
        &&& self.bond < 0x1_0000_0000_0000_0000
        &&& self.add_num < 0x2_0000_0000_0000_0000_0000
        &&& 0 < self.add_den < 0x1_0000_0000_0000
    }
}

pub fn compute_weights(beta: Rational, j: Rational, h: Rational, num_sites: usize) -> (w: Weights)
    requires
        beta.valid(),
        j.valid(),
        h.valid(),
        1 <= num_sites <= MAX_SITES,
    ensures
        w == weights_of(beta, j, h, num_sites as nat),
        w.bounded(),
{
    let l = num_sites as u128;
    let hn = h.num as u128;
    let hd = h.den as u128;
    let jn = j.num as u128;
    let jd = j.den as u128;
    let bn = beta.num as u128;
    let bd = beta.den as u128;
    assert(hn * jd <= 0xFFFF * 0xFFFF) by (nonlinear_arith)
        requires hn <= 0xFFFF, jd <= 0xFFFF;
    assert(hn * jd * l <= 0xFFFF * 0xFFFF * 0xFFFF_FFFF) by (nonlinear_arith)
        requires hn * jd <= 0xFFFF * 0xFFFF, l <= 0xFFFF_FFFF;
    assert(jn * hd <= 0xFFFF * 0xFFFF) by (nonlinear_arith)
        requires jn <= 0xFFFF, hd <= 0xFFFF;
    assert(jn * hd * (l - 1) <= 0xFFFF * 0xFFFF * 0xFFFF_FFFF) by (nonlinear_arith)
        requires jn * hd <= 0xFFFF * 0xFFFF, l - 1 <= 0xFFFF_FFFF;
    let field = hn * jd * l;
    let bond = jn * hd * (l - 1);
    assert(bn * (field + bond) <= 0xFFFF * (2 * 0xFFFF * 0xFFFF * 0xFFFF_FFFF)) by (nonlinear_arith)
        requires bn <= 0xFFFF, field + bond <= 2 * 0xFFFF * 0xFFFF * 0xFFFF_FFFF;
    assert(bd * hd <= 0xFFFF * 0xFFFF) by (nonlinear_arith)
        requires bd <= 0xFFFF, hd <= 0xFFFF;
    assert(bd * hd * jd <= 0xFFFF * 0xFFFF * 0xFFFF) by (nonlinear_arith)
        requires bd * hd <= 0xFFFF * 0xFFFF, jd <= 0xFFFF;
    assert(bd * hd * jd > 0) by (nonlinear_arith)
        requires bd > 0, hd > 0, jd > 0;
    Weights { field, bond, add_num: bn * (field + bond), add_den: bd * hd * jd }
}

/// Insertion at a null slot is certain: `add_factor / (m - n) >= 1`.
pub open spec fn insertion_certain(w: Weights, free: nat) -> bool {
    w.add_num >= free * w.add_den
}

/// Insertion with draw `r` is accepted: `r / u32::MAX <= add_factor / (m - n)`.
pub open spec fn insertion_accepts(w: Weights, free: nat, r: nat) -> bool {
    r * free * w.add_den <= w.add_num * DRAW_SCALE
}

/// Removal of a diagonal operator is certain: `remove_factor * (m - n + 1) >= 1`.
pub open spec fn removal_certain(w: Weights, slots: nat) -> bool {
    slots * w.add_den >= w.add_num
}

/// Removal with draw `r` is accepted: `r / u32::MAX <= remove_factor * (m - n + 1)`.
pub open spec fn removal_accepts(w: Weights, slots: nat, r: nat) -> bool {
    r * w.add_num <= slots * w.add_den * DRAW_SCALE
}

/// A site operator is chosen with draw `r`: `r / u32::MAX < h L / (h L + J (L - 1))`.
pub open spec fn site_chosen(w: Weights, r: nat) -> bool {
    r * (w.field + w.bond) < w.field * DRAW_SCALE
}

/// A cluster is flipped with draw `r`: `r / u32::MAX > 1/2`.
pub open spec fn coin_flips(r: nat) -> bool {
    2 * r > DRAW_SCALE
}

pub fn is_insertion_certain(w: &Weights, free: usize) -> (r: bool)
    requires
        w.bounded(),
        free <= MAX_ORDER,
    ensures
        r == insertion_certain(*w, free as nat),
{
    assert(free as u128 * w.add_den <= 0x400_0000 * 0x1_0000_0000_0000) by (nonlinear_arith)
        requires free <= 0x400_0000, w.add_den < 0x1_0000_0000_0000;
    w.add_num >= free as u128 * w.add_den
}

pub fn does_insertion_accept(w: &Weights, free: usize, r: u32) -> (a: bool)
    requires
        w.bounded(),
        free <= MAX_ORDER,
    ensures
        a == insertion_accepts(*w, free as nat, r as nat),
{
    let rr = r as u128;
    let f = free as u128;
    assert(rr * f <= 0xFFFF_FFFF * 0x400_0000) by (nonlinear_arith)
        requires rr <= 0xFFFF_FFFF, f <= 0x400_0000;
    assert(rr * f * w.add_den <= 0xFFFF_FFFF * 0x400_0000 * 0x1_0000_0000_0000) by (nonlinear_arith)
        requires rr * f <= 0xFFFF_FFFF * 0x400_0000, w.add_den < 0x1_0000_0000_0000;
    assert(w.add_num * 0xFFFF_FFFF <= 0x2_0000_0000_0000_0000_0000 * 0xFFFF_FFFF) by (nonlinear_arith)
        requires w.add_num < 0x2_0000_0000_0000_0000_0000;
    rr * f * w.add_den <= w.add_num * (DRAW_SCALE as u128)
}

pub fn is_removal_certain(w: &Weights, slots: usize) -> (r: bool)
    requires
        w.bounded(),
        slots <= MAX_ORDER + 1,
    ensures
        r == removal_certain(*w, slots as nat),
{
    assert(slots as u128 * w.add_den <= 0x400_0001 * 0x1_0000_0000_0000) by (nonlinear_arith)
        requires slots <= 0x400_0001, w.add_den < 0x1_0000_0000_0000;
    slots as u128 * w.add_den >= w.add_num
}

pub fn does_removal_accept(w: &Weights, slots: usize, r: u32) -> (a: bool)
    requires
        w.bounded(),
        slots <= MAX_ORDER + 1,
    ensures
        a == removal_accepts(*w, slots as nat, r as nat),
{
    let rr = r as u128;
    let s = slots as u128;
    assert(rr * w.add_num <= 0xFFFF_FFFF * 0x2_0000_0000_0000_0000_0000) by (nonlinear_arith)
        requires rr <= 0xFFFF_FFFF, w.add_num < 0x2_0000_0000_0000_0000_0000;
    assert(s * w.add_den <= 0x400_0001 * 0x1_0000_0000_0000) by (nonlinear_arith)
        requires s <= 0x400_0001, w.add_den < 0x1_0000_0000_0000;
    assert(s * w.add_den * 0xFFFF_FFFF <= 0x400_0001 * 0x1_0000_0000_0000 * 0xFFFF_FFFF) by (nonlinear_arith)
        requires s * w.add_den <= 0x400_0001 * 0x1_0000_0000_0000;
    rr * w.add_num <= s * w.add_den * (DRAW_SCALE as u128)
}

pub fn is_site_chosen(w: &Weights, r: u32) -> (a: bool)
    requires
        w.bounded(),
    ensures
        a == site_chosen(*w, r as nat),
{
    let rr = r as u128;
    assert(rr * (w.field + w.bond) <= 0xFFFF_FFFF * 0x2_0000_0000_0000_0000) by (nonlinear_arith)
        requires rr <= 0xFFFF_FFFF, w.field + w.bond < 0x2_0000_0000_0000_0000;
    assert(w.field * 0xFFFF_FFFF <= 0x1_0000_0000_0000_0000 * 0xFFFF_FFFF) by (nonlinear_arith)
        requires w.field < 0x1_0000_0000_0000_0000;
    rr * (w.field + w.bond) < w.field * (DRAW_SCALE as u128)
}

pub fn does_coin_flip(r: u32) -> (a: bool)
    ensures
        a == coin_flips(r as nat),
{
    2 * (r as u64) > DRAW_SCALE
}

/// Detailed balance of insertion and removal: the insertion ratio
/// `add_factor / (m - n)` with `n` operators, times the removal ratio
/// `remove_factor * (m - (n + 1) + 1)` once the operator is in, is exactly one,
/// for a non-zero `add_factor`. Both ratios are compared as fractions
/// `(add_num / ((m - n) add_den)) * (((m - n) add_den) / add_num)`; and of the
/// two moves at least one is always accepted.
pub proof fn lemma_detailed_balance(w: Weights, m: nat, n: nat)
    requires
        n < m,
        w.add_num > 0,
        w.add_den > 0,
    ensures
        ({
            let free = (m - n) as nat;
            let slots_after = (m - (n + 1) + 1) as nat;
            &&& slots_after == free
            &&& w.add_num * (slots_after * w.add_den) == (free * w.add_den) * w.add_num
            &&& insertion_certain(w, free) || removal_certain(w, slots_after)
        }),
{
    let free = (m - n) as nat;
    assert(w.add_num * (free * w.add_den) == (free * w.add_den) * w.add_num) by (nonlinear_arith);
}

} // verus!

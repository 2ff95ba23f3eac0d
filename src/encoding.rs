//! Registers, operators and legs: the small values that the engine is made of.
//!
//! A register (qudit) holds two bits `(r_z, r_x)` as `2 * r_z + r_x`; the four
//! values stand for the Pauli operators I, X, Z and Y.
//!
//! Each slice of the operator string owns four legs, numbered `4 * p + k`:
//!
//! ```text
//!     2    3        (later in imaginary time)
//!    [][][][]
//!     0    1        (earlier in imaginary time)
//! ```
//!
//! `k ^ 2` crosses the slice in time, `k ^ 1` moves to the neighbouring leg.
use vstd::prelude::*;

verus! {

/// Snapshot value of a slice side that no register occupies.
pub const NULL_QUDIT: u8 = 7;

/// Vertex-list entry of an unused leg; also a site or bond without legs.
pub const EMPTY: i64 = -1;

/// Mark of a processed leg whose cluster was flipped.
pub const FLIPPED: i64 = -2;

/// Mark of a processed leg whose cluster was kept.
pub const NOT_FLIPPED: i64 = -1;

/// First-leg entry of a site (or bond) that no operator touches.
pub const FREE_SPIN: i64 = -1;

/// One slot of the operator string, with the site or bond it acts on.
#[derive(Clone, Copy, Debug, PartialEq, Eq, Structural)]
pub enum Op {
    Null,
    DiagSite(usize),
    OffDiagSite(usize),
    DiagBond(usize),
    OffDiagBond(usize),
}

impl Op {
    pub open spec fn is_null(self) -> bool {
        self is Null
    }

    pub open spec fn is_site(self) -> bool {
        self is DiagSite || self is OffDiagSite
    }

    pub open spec fn is_bond(self) -> bool {
        self is DiagBond || self is OffDiagBond
    }

    pub open spec fn is_diagonal(self) -> bool {
        self is DiagSite || self is DiagBond
    }

    pub open spec fn is_off_diagonal(self) -> bool {
        self is OffDiagSite || self is OffDiagBond
    }

    /// The site of a site operator, or the bond of a bond operator.
    pub open spec fn target(self) -> nat {
        match self {
            Op::Null => 0,
            Op::DiagSite(s) => s as nat,
            Op::OffDiagSite(s) => s as nat,
            Op::DiagBond(b) => b as nat,
            Op::OffDiagBond(b) => b as nat,
        }
    }

    /// The operator with its diagonal / off-diagonal character exchanged.
    pub open spec fn flipped(self) -> Op {
        match self {
            Op::Null => Op::Null,
            Op::DiagSite(s) => Op::OffDiagSite(s),
            Op::OffDiagSite(s) => Op::DiagSite(s),
            Op::DiagBond(b) => Op::OffDiagBond(b),
            Op::OffDiagBond(b) => Op::DiagBond(b),
        }
    }

    /// What the operator does to the registers it passes: only off-diagonal
    /// operators change them.
    pub open spec fn action(self) -> Op {
        if self.is_off_diagonal() {
            self
        } else {
            Op::Null
        }
    }

    /// The operator acts on an existing site or bond of a chain of `num_sites` sites.
    pub open spec fn fits(self, num_sites: nat) -> bool {
        match self {
            Op::Null => true,
            Op::DiagSite(s) => s < num_sites,
            Op::OffDiagSite(s) => s < num_sites,
            Op::DiagBond(b) => b + 1 < num_sites,
            Op::OffDiagBond(b) => b + 1 < num_sites,
        }
    }

    pub fn is_null_op(&self) -> (r: bool)
        ensures
            r == self.is_null(),
    {
        match self {
            Op::Null => true,
            _ => false,
        }
    }

    pub fn is_site_op(&self) -> (r: bool)
        ensures
            r == self.is_site(),
    {
        match self {
            Op::DiagSite(_) | Op::OffDiagSite(_) => true,
            _ => false,
        }
    }

    pub fn is_bond_op(&self) -> (r: bool)
        ensures
            r == self.is_bond(),
    {
        match self {
            Op::DiagBond(_) | Op::OffDiagBond(_) => true,
            _ => false,
        }
    }

    /// The site or bond index, 0 for the null operator.
    pub fn index(&self) -> (r: usize)
        ensures
            r == self.target(),
    {
        match self {
            Op::Null => 0,
            Op::DiagSite(s) => *s,
            Op::OffDiagSite(s) => *s,
            Op::DiagBond(b) => *b,
            Op::OffDiagBond(b) => *b,
        }
    }
}

/// Exchanges diagonal and off-diagonal character, keeping the target.
pub fn flip_operator(op: Op) -> (r: Op)
    ensures
        r == op.flipped(),
{
    match op {
        Op::Null => Op::Null,
        Op::DiagSite(s) => Op::OffDiagSite(s),
        Op::OffDiagSite(s) => Op::DiagSite(s),
        Op::DiagBond(b) => Op::OffDiagBond(b),
        Op::OffDiagBond(b) => Op::DiagBond(b),
    }
}

/// The field bit `r_x` of a register.
pub open spec fn rx(q: u8) -> u8 {
    q % 2
}

/// The interaction bit `r_z` of a register.
pub open spec fn rz(q: u8) -> u8 {
    (q / 2) % 2
}

/// The register with its field bit toggled.
pub open spec fn with_rx_toggled(q: u8) -> u8 {
    if q % 2 == 0 {
        (q + 1) as u8
    } else {
        (q - 1) as u8
    }
}

/// The register with its interaction bit toggled.
pub open spec fn with_rz_toggled(q: u8) -> u8 {
    if (q / 2) % 2 == 0 {
        (q + 2) as u8
    } else {
        (q - 2) as u8
    }
}

pub fn field_bit(q: u8) -> (r: u8)
    ensures
        r == rx(q),
{
    assert(q & 1 == q % 2) by (bit_vector);
    q & 1
}

pub fn interaction_bit(q: u8) -> (r: u8)
    ensures
        r == rz(q),
{
    assert((q >> 1) & 1 == (q / 2) % 2) by (bit_vector);
    (q >> 1) & 1
}

pub fn toggle_field(q: u8) -> (r: u8)
    ensures
        r == with_rx_toggled(q),
        q < 4 ==> r < 4,
{
    assert(q ^ 1 == if q % 2 == 0 { (q + 1) as u8 } else { (q - 1) as u8 }) by (bit_vector);
    q ^ 1
}

pub fn toggle_interaction(q: u8) -> (r: u8)
    ensures
        r == with_rz_toggled(q),
        q < 4 ==> r < 4,
{
    assert(q ^ 2 == if (q / 2) % 2 == 0 { (q + 2) as u8 } else { (q - 2) as u8 }) by (bit_vector);
    q ^ 2
}

/// The leg on the other time side of the same slice: `v ^ 2`.
pub open spec fn across(v: int) -> int {
    if v % 4 < 2 {
        v + 2
    } else {
        v - 2
    }
}

/// The neighbouring leg on the same time side of the same slice: `v ^ 1`.
pub open spec fn beside(v: int) -> int {
    if v % 2 == 0 {
        v + 1
    } else {
        v - 1
    }
}

pub fn time_partner_leg(v: usize) -> (r: usize)
    ensures
        r == across(v as int),
{
    assert(v ^ 2 == if v % 4 < 2 { (v + 2) as usize } else { (v - 2) as usize }) by (bit_vector);
    v ^ 2
}

pub fn neighbor_leg(v: usize) -> (r: usize)
    ensures
        r == beside(v as int),
{
    assert(v ^ 1 == if v % 2 == 0 { (v + 1) as usize } else { (v - 1) as usize }) by (bit_vector);
    v ^ 1
}

/// In the dual vertex list the two legs of one time side are the pair
/// `(2k, 2k + 1)` of a slice, so the back of a leg is its `^ 1` partner.
pub fn to_back(v: usize) -> (r: usize)
    ensures
        r == beside(v as int),
{
    neighbor_leg(v)
}

} // verus!

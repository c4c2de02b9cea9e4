use vstd::prelude::*;
use vstd::arithmetic::div_mod::{lemma_fundamental_div_mod, lemma_fundamental_div_mod_converse};

verus! {

/// The share of the total weight, in parts per million, that a value needs
/// in order to win once the window has run for a given time.
pub trait Escalator {
    /// Required share, in parts per million, after `elapsed` milliseconds.
    spec fn spec_threshold(&self, elapsed: nat) -> nat;

    /// Required share, in parts per million, after `elapsed` milliseconds.
    fn threshold(&self, elapsed: u64) -> (r: u64)
        ensures
            r as nat == self.spec_threshold(elapsed as nat),
    ;
}

/// A threshold that starts at `base` and moves by `slope` per second of
/// elapsed time, held between `floor` and `cap`. `base`, `floor` and `cap`
/// are in parts per million, `slope` in parts per million per second.
#[derive(Clone, Copy, Debug, PartialEq, Eq)]
pub struct LinearEsc {
    pub base: i64,
    pub slope: i64,
    pub cap: u64,
    pub floor: u64,
}

/// `raw` raised to `floor` if below it, then lowered to `cap` if above it.
pub open spec fn clamp_threshold(raw: int, floor: nat, cap: nat) -> nat {
    let lifted = if raw >= floor {
        raw
    } else {
        floor as int
    };
    if lifted <= cap {
        lifted as nat
    } else {
        cap
    }
}

/// `base + slope * elapsed / 1000`, the quotient rounded toward negative
/// infinity, then held between `floor` and `cap`.
pub open spec fn linear_threshold(base: int, slope: int, floor: nat, cap: nat, elapsed: nat) -> nat {
    clamp_threshold(base + (slope * elapsed) / 1000, floor, cap)
}

impl LinearEsc {
    /// A linear threshold with the usual floor of zero.
    pub fn new(base: i64, slope: i64, cap: u64) -> (r: LinearEsc)
        ensures
            r == (LinearEsc { base, slope, cap, floor: 0 }),
    {
        LinearEsc { base, slope, cap, floor: 0 }
    }
}

/// `x / 1000` rounded toward negative infinity.
fn div_thousand_floor(x: i128) -> (r: i128)
    requires
        x > i128::MIN,
    ensures
        r as int == (x as int) / 1000,
{
    if x >= 0 {
        x / 1000
    } else {
        let n = (-(x + 1)) as u128 + 1000;
        let q = n / 1000;
        proof {
            lemma_fundamental_div_mod(n as int, 1000);
            lemma_fundamental_div_mod_converse(
                x as int,
                1000,
                -(q as int),
                x + 1000 * (q as int),
            );
        }
        -(q as i128)
    }
}

impl Escalator for LinearEsc {
    open spec fn spec_threshold(&self, elapsed: nat) -> nat {
        linear_threshold(
            self.base as int,
            self.slope as int,
            self.floor as nat,
            self.cap as nat,
            elapsed,
        )
    }

    fn threshold(&self, elapsed: u64) -> (r: u64) {
        let ghost s = self.slope as int;
        let ghost e = elapsed as int;
        assert(-0x8000_0000_0000_0000_0000_0000_0000_0000 < s * e < 0x7fff_ffff_ffff_ffff_ffff_ffff_ffff_ffff)
            by (nonlinear_arith)
            requires
                -0x8000_0000_0000_0000 <= s < 0x8000_0000_0000_0000,
                0 <= e < 0x1_0000_0000_0000_0000,
        ;
        let prod: i128 = (self.slope as i128) * (elapsed as i128);
        let raw: i128 = (self.base as i128) + div_thousand_floor(prod);
        let lifted: i128 = if raw >= self.floor as i128 {
            raw
        } else {
            self.floor as i128
        };
        if lifted <= self.cap as i128 {
            lifted as u64
        } else {
            self.cap
        }
    }
}

} // verus!

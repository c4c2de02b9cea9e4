use vstd::prelude::*;
use vstd::arithmetic::div_mod::{
    lemma_div_by_multiple,
    lemma_div_is_ordered,
    lemma_div_is_ordered_by_denominator,
    lemma_fundamental_div_mod_converse,
    lemma_multiply_divide_le,
    lemma_div_pos_is_pos,
    lemma_multiply_divide_lt,
};

use crate::half_power::{half_power, half_power_at, half_power_bounds};

verus! {

/// Fixed-point one: weights and thresholds are counted in parts per million.
pub const SCALE: u64 = 1_000_000;

/// The lowest weight that linear decay hands out: one tenth.
pub const LINEAR_FLOOR: u64 = 100_000;

/// Why a strategy could not be built from its parameters.
#[derive(Clone, Copy, Debug, PartialEq, Eq)]
pub enum ConfigError {
    /// A half-life, a decay span or a step length of zero milliseconds.
    ZeroDuration,
}

/// How much a ballot still counts once it has reached a given age.
pub trait Decay {
    /// The parameters describe a usable strategy.
    spec fn wf(&self) -> bool;

    /// Weight, in parts per million, of a ballot that is `age` milliseconds old.
    spec fn spec_weight(&self, age: nat) -> nat;

    /// Weight, in parts per million, of a ballot that is `age` milliseconds old.
    fn weight(&self, age: u64) -> (r: u64)
        requires
            self.wf(),
        ensures
            r as nat == self.spec_weight(age as nat),
            r <= SCALE,
    ;
}

/// Halves `x` (rounding down) `q` times.
pub open spec fn halve(x: nat, q: nat) -> nat
    decreases q,
{
    if q == 0 || x == 0 {
        x
    } else {
        halve(x / 2, (q - 1) as nat)
    }
}

/// Exponential decay `0.5 ^ (age / h)` in fixed point. The fraction of a
/// half-life is placed between two of the points `half_power(k)`, sixty-four
/// to a half-life, and read off the straight line that joins them; the value
/// is then halved once for each whole half-life. At every sixty-fourth of a
/// half-life it is the curve rounded down, elsewhere within sixteen parts
/// per million of the curve, and it never drops below one part per million.
pub open spec fn exp_weight(age: nat, h: nat) -> nat
    recommends
        h > 0,
{
    let t = 64 * (age % h);
    let k = t / h;
    let hi = half_power(k);
    let lo = half_power(k + 1);
    let v = hi - ((hi - lo) * (t % h)) / (h as int);
    let w = halve(v as nat, age / h);
    if w >= 1 {
        w
    } else {
        1
    }
}

/// Linear decay: `max(0.1, 1 - age / d)` in fixed point, the quotient
/// rounded down.
pub open spec fn linear_weight(age: nat, d: nat) -> nat
    recommends
        d > 0,
{
    if age >= d {
        LINEAR_FLOOR as nat
    } else {
        let w = SCALE as int - (SCALE as int * age) / (d as int);
        if w >= LINEAR_FLOOR {
            w as nat
        } else {
            LINEAR_FLOOR as nat
        }
    }
}

/// Step decay: `1 / (k + 1)` in fixed point, where `k` counts the whole
/// steps of length `s` that fit in `age`; never below one part per million.
pub open spec fn step_weight(age: nat, s: nat) -> nat
    recommends
        s > 0,
{
    let w = SCALE as nat / (age / s + 1);
    if w >= 1 {
        w
    } else {
        1
    }
}

proof fn lemma_halve_le(x: nat, q: nat)
    ensures
        halve(x, q) <= x,
    decreases q,
{
    if q > 0 && x > 0 {
        lemma_halve_le(x / 2, (q - 1) as nat);
    }
}

/// Exponential decay with the half-life, in milliseconds, in its field.
#[derive(Clone, Copy, Debug, PartialEq, Eq)]
pub struct ExpDecay(pub u64);

/// Linear decay over the span, in milliseconds, in its field.
#[derive(Clone, Copy, Debug, PartialEq, Eq)]
pub struct LinearDecay(pub u64);

/// Step decay with the step length, in milliseconds, in its field.
#[derive(Clone, Copy, Debug, PartialEq, Eq)]
pub struct StepDecay(pub u64);

impl ExpDecay {
    /// A strategy with the given half-life; a zero half-life is refused.
    pub fn new(half_life: u64) -> (r: Result<ExpDecay, ConfigError>)
        ensures
            half_life == 0 <==> r == Err::<ExpDecay, ConfigError>(ConfigError::ZeroDuration),
            half_life > 0 <==> r == Ok::<ExpDecay, ConfigError>(ExpDecay(half_life)),
    {
        if half_life == 0 {
            Err(ConfigError::ZeroDuration)
        } else {
            Ok(ExpDecay(half_life))
        }
    }
}

impl LinearDecay {
    /// A strategy that decays over the given span; a zero span is refused.
    pub fn new(span: u64) -> (r: Result<LinearDecay, ConfigError>)
        ensures
            span == 0 <==> r == Err::<LinearDecay, ConfigError>(ConfigError::ZeroDuration),
            span > 0 <==> r == Ok::<LinearDecay, ConfigError>(LinearDecay(span)),
    {
        if span == 0 {
            Err(ConfigError::ZeroDuration)
        } else {
            Ok(LinearDecay(span))
        }
    }
}

impl StepDecay {
    /// A strategy with the given step length; a zero step is refused.
    pub fn new(step: u64) -> (r: Result<StepDecay, ConfigError>)
        ensures
            step == 0 <==> r == Err::<StepDecay, ConfigError>(ConfigError::ZeroDuration),
            step > 0 <==> r == Ok::<StepDecay, ConfigError>(StepDecay(step)),
    {
        if step == 0 {
            Err(ConfigError::ZeroDuration)
        } else {
            Ok(StepDecay(step))
        }
    }
}

impl Decay for ExpDecay {
    open spec fn wf(&self) -> bool {
        self.0 > 0
    }

    open spec fn spec_weight(&self, age: nat) -> nat {
        exp_weight(age, self.0 as nat)
    }

    fn weight(&self, age: u64) -> (r: u64) {
        let h = self.0;
        let q = age / h;
        let rem = age % h;
        let t: u128 = 64 * (rem as u128);
        let k = t / (h as u128);
        let part = t % (h as u128);
        proof {
            lemma_multiply_divide_lt(t as int, h as int, 64);
        }
        let hi = half_power_at(k as u64);
        let lo = half_power_at(k as u64 + 1);
        let gap = hi - lo;
        proof {
            assert((gap as int) * (part as int) <= (h as int) * (gap as int)) by (nonlinear_arith)
                requires
                    0 <= part < h,
                    0 <= gap,
            ;
            lemma_multiply_divide_le((gap as int) * (part as int), h as int, gap as int);
            assert((gap as int) * (part as int) <= (SCALE as int) * 0x1_0000_0000_0000_0000) by (nonlinear_arith)
                requires
                    gap <= SCALE,
                    part < 0x1_0000_0000_0000_0000,
            ;
        }
        let drop = ((gap as u128) * part / (h as u128)) as u64;
        let v = hi - drop;
        let mut top: u64 = v;
        let mut n: u64 = 0;
        while n < q && top > 0
            invariant
                n <= q,
                top <= SCALE,
                halve(top as nat, (q - n) as nat) == halve(v as nat, q as nat),
            decreases q - n,
        {
            top = top / 2;
            n = n + 1;
        }
        assert(halve(top as nat, (q - n) as nat) == top);
        if top >= 1 {
            top
        } else {
            1
        }
    }
}

impl Decay for LinearDecay {
    open spec fn wf(&self) -> bool {
        self.0 > 0
    }

    open spec fn spec_weight(&self, age: nat) -> nat {
        linear_weight(age, self.0 as nat)
    }

    fn weight(&self, age: u64) -> (r: u64) {
        let d = self.0;
        if age >= d {
            LINEAR_FLOOR
        } else {
            let prod: u128 = (SCALE as u128) * (age as u128);
            let part = prod / (d as u128);
            proof {
                assert(SCALE * age <= d * SCALE) by (nonlinear_arith)
                    requires
                        age < d,
                ;
                lemma_multiply_divide_le(SCALE * age, d as int, SCALE as int);
            }
            let w = SCALE - (part as u64);
            if w >= LINEAR_FLOOR {
                w
            } else {
                LINEAR_FLOOR
            }
        }
    }
}

impl Decay for StepDecay {
    open spec fn wf(&self) -> bool {
        self.0 > 0
    }

    open spec fn spec_weight(&self, age: nat) -> nat {
        step_weight(age, self.0 as nat)
    }

    fn weight(&self, age: u64) -> (r: u64) {
        let steps = age / self.0;
        let steps = steps as u128 + 1;
        let w = (SCALE as u128) / steps;
        proof {
            lemma_div_is_ordered_by_denominator(SCALE as int, 1, steps as int);
        }
        if w >= 1 {
            w as u64
        } else {
            1
        }
    }
}

/// A boxed strategy decays as the strategy inside it does.
impl<D: Decay> Decay for Box<D> {
    open spec fn wf(&self) -> bool {
        (**self).wf()
    }

    open spec fn spec_weight(&self, age: nat) -> nat {
        (**self).spec_weight(age)
    }

    fn weight(&self, age: u64) -> (r: u64) {
        (**self).weight(age)
    }
}

/// Exponential decay stays within `(0, 1]` at every age, counts fully when
/// fresh, and counts one half after exactly one half-life.
pub proof fn exp_decay_bounds(d: ExpDecay, age: nat)
    requires
        d.wf(),
    ensures
        0 < d.spec_weight(age) <= SCALE,
        d.spec_weight(0) == SCALE,
        d.spec_weight(d.0 as nat) == SCALE / 2,
{
    let h = d.0 as nat;
    let t = 64 * (age % h);
    lemma_multiply_divide_lt(t as int, h as int, 64);
    half_power_bounds(t / h);
    let gap = half_power(t / h) - half_power(t / h + 1);
    assert(gap * (t % h) >= 0) by (nonlinear_arith)
        requires
            gap >= 0,
            t % h >= 0,
    ;
    lemma_div_pos_is_pos(gap * (t % h), h as int);
    assert(gap * (t % h) <= (h as int) * gap) by (nonlinear_arith)
        requires
            gap >= 0,
            0 <= t % h < h,
    ;
    lemma_multiply_divide_le(gap * (t % h), h as int, gap);
    let v = half_power(t / h) - (gap * (t % h)) / (h as int);
    lemma_halve_le(v as nat, age / h);
    assert(0nat / h == 0 && 0nat % h == 0) by {
        lemma_fundamental_div_mod_converse(0, h as int, 0, 0);
    }
    assert(h / h == 1 && h % h == 0) by {
        lemma_fundamental_div_mod_converse(h as int, h as int, 1, 0);
    }
    reveal_with_fuel(halve, 2);
}

/// Where the half-life splits into sixty-fourths, exponential decay at `k`
/// of them is the table point `half_power(k)`, the curve rounded down.
pub proof fn exp_decay_on_grid(d: ExpDecay, k: nat)
    requires
        d.wf(),
        d.0 % 64 == 0,
        k < 64,
    ensures
        d.spec_weight(k * (d.0 as nat / 64)) == half_power(k),
{
    let h = d.0 as int;
    let u = h / 64;
    let age = k * u;
    assert(h == 64 * u) by {
        lemma_fundamental_div_mod_converse(h, 64, u, 0);
    }
    assert(0 <= age < h) by (nonlinear_arith)
        requires
            age == k * u,
            h == 64 * u,
            0 <= k < 64,
            u > 0,
    ;
    lemma_fundamental_div_mod_converse(age, h, 0, age);
    assert(64 * age == k * h) by (nonlinear_arith)
        requires
            age == k * u,
            h == 64 * u,
    ;
    lemma_fundamental_div_mod_converse(64 * age, h, k as int, 0);
    half_power_bounds(k);
    let gap = half_power(k) - half_power(k + 1);
    assert(gap * 0 == 0);
    assert(halve(half_power(k), 0) == half_power(k));
}

/// Linear decay sits exactly on its floor of one tenth from nine tenths of
/// its span onward.
pub proof fn linear_decay_floor(d: LinearDecay, age: nat)
    requires
        d.wf(),
        10 * age >= 9 * d.0,
    ensures
        d.spec_weight(age) == LINEAR_FLOOR,
{
    let s = d.0 as int;
    if age < s {
        let c: int = 900_000;
        assert(SCALE * age >= c * s);
        lemma_div_by_multiple(c, s);
        lemma_div_is_ordered(c * s, SCALE * age, s);
    }
}

/// Step decay never grows as a ballot ages.
pub proof fn step_decay_nonincreasing(d: StepDecay, a1: nat, a2: nat)
    requires
        d.wf(),
        a1 <= a2,
    ensures
        d.spec_weight(a2) <= d.spec_weight(a1),
{
    let s = d.0 as int;
    lemma_div_is_ordered(a1 as int, a2 as int, s);
    lemma_div_is_ordered_by_denominator(SCALE as int, a1 as int / s + 1, a2 as int / s + 1);
}

/// Step decay counts `1 / (k + 1)` throughout the `k`-th step, that is for
/// ages from `k` steps up to, not including, `k + 1` steps, until that
/// falls below one part per million; it never reaches zero.
pub proof fn step_decay_value(d: StepDecay, k: nat, age: nat)
    requires
        d.wf(),
        k * d.0 <= age < (k + 1) * d.0,
    ensures
        k < SCALE ==> d.spec_weight(age) == SCALE as nat / (k + 1),
        d.spec_weight(age) >= 1,
{
    let s = d.0 as int;
    assert(age - k * s < s) by (nonlinear_arith)
        requires
            age < (k + 1) * s,
    ;
    lemma_fundamental_div_mod_converse(age as int, s, k as int, age - k * s);
    if k < SCALE {
        lemma_div_is_ordered_by_denominator(SCALE as int, k + 1int, SCALE as int);
    }
}

} // verus!

//! Playback speed arithmetic.
//!
//! Speeds and sample positions are fixed-point numbers with sixteen
//! fractional bits: the integer `ONE` stands for 1.0.
use vstd::prelude::*;

verus! {

/// The fixed-point unit: 1.0 in speed factors and one sample in positions.
pub const ONE: i64 = 65536;

/// Largest magnitude of the fader and bend factors (2^20 times normal speed).
pub const FACTOR_LIMIT: i64 = 68719476736;

/// Largest resampling factor (2^32 times normal speed).
pub const RESAMPLE_LIMIT: i64 = 281474976710656;

/// Effective speeds are clamped to this magnitude (2^24 times normal speed).
pub const SPEED_CAP: i64 = 1099511627776;

/// Resolution of a scratch velocity: a velocity `v` stands for `v / 64`.
pub const VELOCITY_STEPS: i64 = 64;

/// Division that rounds toward zero.
pub open spec fn trunc_div(x: int, d: int) -> int {
    if x >= 0 {
        x / d
    } else {
        -((-x) / d)
    }
}

pub open spec fn clamp_speed(x: int) -> int {
    if x > SPEED_CAP {
        SPEED_CAP as int
    } else if x < -SPEED_CAP {
        -SPEED_CAP
    } else {
        x
    }
}

pub open spec fn factor_ok(f: i64) -> bool {
    -FACTOR_LIMIT <= f <= FACTOR_LIMIT
}

pub open spec fn resample_ok(r: i64) -> bool {
    0 <= r <= RESAMPLE_LIMIT
}

/// The exact product `resample * fader * bend`, in fixed point.
pub open spec fn speed_product(resample: int, fader: int, bend: int) -> int {
    trunc_div(resample * fader * bend, ONE * ONE)
}

/// The speed handed to the audio side: the product, clamped to `SPEED_CAP`.
pub open spec fn effective_speed_spec(resample: int, fader: int, bend: int) -> int {
    clamp_speed(speed_product(resample, fader, bend))
}

/// The user-facing speed `fader * bend`, without the per-track resampling.
pub open spec fn sustained_speed_spec(fader: int, bend: int) -> int {
    trunc_div(fader * bend, ONE as int)
}

/// `resample * fader * bend`, clamped to `SPEED_CAP`.
pub fn effective_speed(resample: i64, fader: i64, bend: i64) -> (r: i64)
    requires
        resample_ok(resample),
        factor_ok(fader),
        factor_ok(bend),
    ensures
        r == effective_speed_spec(resample as int, fader as int, bend as int),
        -SPEED_CAP <= r <= SPEED_CAP,
{
    let af: i128 = if fader < 0 { -(fader as i128) } else { fader as i128 };
    let ab: i128 = if bend < 0 { -(bend as i128) } else { bend as i128 };
    let negative: bool = (fader < 0) != (bend < 0);
    assert(0 <= resample * af <= RESAMPLE_LIMIT * FACTOR_LIMIT) by (nonlinear_arith)
        requires 0 <= resample <= RESAMPLE_LIMIT, 0 <= af <= FACTOR_LIMIT;
    let m1: i128 = resample as i128 * af;
    assert(0 <= m1 * ab <= RESAMPLE_LIMIT * FACTOR_LIMIT * FACTOR_LIMIT) by (nonlinear_arith)
        requires 0 <= m1 <= RESAMPLE_LIMIT * FACTOR_LIMIT, 0 <= ab <= FACTOR_LIMIT;
    let m: i128 = m1 * ab;
    let q: i128 = m / 4294967296i128;
    proof {
        assert(fader * bend == if negative { -(af * ab) } else { af * ab }) by (nonlinear_arith)
            requires
                af == (if fader < 0 { -fader } else { fader as int }),
                ab == (if bend < 0 { -bend } else { bend as int }),
                negative == ((fader < 0) != (bend < 0));
        assert(resample * fader * bend == resample * (fader * bend)) by (nonlinear_arith);
        assert(resample * (af * ab) == m) by (nonlinear_arith)
            requires m == m1 * ab, m1 == resample * af;
        assert(resample * fader * bend == if negative { -m } else { m as int }) by (nonlinear_arith)
            requires
                resample * fader * bend == resample * (fader * bend),
                resample * (af * ab) == m,
                fader * bend == if negative { -(af * ab) } else { af * ab };
    }
    if q > SPEED_CAP as i128 {
        if negative { -SPEED_CAP } else { SPEED_CAP }
    } else if negative {
        -(q as i64)
    } else {
        q as i64
    }
}

/// `fader * bend`, the speed that the user sees.
pub fn sustained_speed(fader: i64, bend: i64) -> (r: i64)
    requires
        factor_ok(fader),
        factor_ok(bend),
    ensures
        r == sustained_speed_spec(fader as int, bend as int),
{
    assert(-FACTOR_LIMIT * FACTOR_LIMIT <= fader * bend <= FACTOR_LIMIT * FACTOR_LIMIT) by (nonlinear_arith)
        requires -FACTOR_LIMIT <= fader <= FACTOR_LIMIT, -FACTOR_LIMIT <= bend <= FACTOR_LIMIT;
    let p: i128 = fader as i128 * bend as i128;
    if p >= 0 {
        (p / ONE as i128) as i64
    } else {
        -(((-p) / ONE as i128) as i64)
    }
}


/// 2^(j/16) * 65536 rounded to the nearest integer, for `0 <= j < 16`
/// (the sixteen steps of one doubling in fixed point).
pub open spec fn pow2_sixteenth_spec(j: int) -> int {
    if j == 0 { 65536 }
    else if j == 1 { 68438 }
    else if j == 2 { 71468 }
    else if j == 3 { 74632 }
    else if j == 4 { 77936 }
    else if j == 5 { 81386 }
    else if j == 6 { 84990 }
    else if j == 7 { 88752 }
    else if j == 8 { 92682 }
    else if j == 9 { 96785 }
    else if j == 10 { 101070 }
    else if j == 11 { 105545 }
    else if j == 12 { 110218 }
    else if j == 13 { 115098 }
    else if j == 14 { 120194 }
    else { 125515 }
}

pub open spec fn pow2_nat(n: nat) -> int
    decreases n,
{
    if n == 0 { 1 } else { 2 * pow2_nat((n - 1) as nat) }
}

/// 2^(e/16) in fixed point.
pub open spec fn pow2_sixteenths(e: nat) -> int {
    pow2_sixteenth_spec(e as int % 16) * pow2_nat(e / 16)
}

/// The bend that a scratch velocity `v` (in 64ths) gives while the deck is
/// in sustained play: `(v + 2) / 2` below zero, `v + 1` from zero up.
pub open spec fn playing_scratch_bend(v: int) -> int {
    if v < 0 {
        (v + 2 * VELOCITY_STEPS) * (ONE as int / (2 * VELOCITY_STEPS))
    } else {
        (v + VELOCITY_STEPS) * (ONE as int / VELOCITY_STEPS as int)
    }
}

/// The bend that a scratch velocity `v` (in 64ths) gives while the deck is
/// paused: `sign(v) * 4^(10 |v|) / 10`, and 1.0 for a zero velocity.
pub open spec fn paused_scratch_bend(v: int) -> int {
    if v == 0 {
        ONE as int
    } else if v > 0 {
        pow2_sixteenths((5 * v) as nat) / 10
    } else {
        -(pow2_sixteenths((-5 * v) as nat) / 10)
    }
}

pub open spec fn velocity_ok(v: i64) -> bool {
    -VELOCITY_STEPS <= v <= VELOCITY_STEPS
}

fn pow2_sixteenth(j: u64) -> (r: i64)
    requires
        j < 16,
    ensures
        r == pow2_sixteenth_spec(j as int),
{
    match j {
        0 => 65536,
        1 => 68438,
        2 => 71468,
        3 => 74632,
        4 => 77936,
        5 => 81386,
        6 => 84990,
        7 => 88752,
        8 => 92682,
        9 => 96785,
        10 => 101070,
        11 => 105545,
        12 => 110218,
        13 => 115098,
        14 => 120194,
        _ => 125515,
    }
}

proof fn lemma_pow2_nat_grows(a: nat, b: nat)
    requires
        a <= b,
    ensures
        1 <= pow2_nat(a) <= pow2_nat(b),
    decreases b,
{
    if b > a {
        lemma_pow2_nat_grows(a, (b - 1) as nat);
    } else if a > 0 {
        lemma_pow2_nat_grows((a - 1) as nat, (a - 1) as nat);
    }
}

/// 2^(e/16) in fixed point, for exponents up to 320.
fn pow2_sixteenths_exec(e: u64) -> (r: i64)
    requires
        e <= 320,
    ensures
        r == pow2_sixteenths(e as nat),
        65536 <= r <= 131611525120,
{
    let mut r: i64 = pow2_sixteenth(e % 16);
    let k: u64 = e / 16;
    let mut i: u64 = 0;
    proof {
        lemma_pow2_nat_grows(k as nat, 20);
        reveal_with_fuel(pow2_nat, 21);
        assert(pow2_nat(20) == 1048576);
    }
    while i < k
        invariant
            k == e / 16,
            k <= 20,
            i <= k,
            pow2_nat(20) == 1048576,
            r == pow2_sixteenth_spec(e as int % 16) * pow2_nat(i as nat),
            1 <= pow2_nat(i as nat) <= pow2_nat(k as nat) <= pow2_nat(20),
            65536 <= pow2_sixteenth_spec(e as int % 16) <= 125515,
        decreases k - i,
    {
        proof {
            lemma_pow2_nat_grows((i + 1) as nat, k as nat);
            assert(pow2_nat((i + 1) as nat) == 2 * pow2_nat(i as nat));
            assert(r * 2 == pow2_sixteenth_spec(e as int % 16) * pow2_nat((i + 1) as nat)) by (nonlinear_arith)
                requires
                    r == pow2_sixteenth_spec(e as int % 16) * pow2_nat(i as nat),
                    pow2_nat((i + 1) as nat) == 2 * pow2_nat(i as nat);
            assert(r * 2 <= 125515 * 1048576) by (nonlinear_arith)
                requires
                    r == pow2_sixteenth_spec(e as int % 16) * pow2_nat(i as nat),
                    2 * pow2_nat(i as nat) <= 1048576,
                    pow2_sixteenth_spec(e as int % 16) <= 125515,
                    pow2_sixteenth_spec(e as int % 16) >= 0;
        }
        r = r * 2;
        i = i + 1;
    }
    proof {
        assert(65536 <= r <= 125515 * 1048576) by (nonlinear_arith)
            requires
                r == pow2_sixteenth_spec(e as int % 16) * pow2_nat(k as nat),
                1 <= pow2_nat(k as nat) <= 1048576,
                65536 <= pow2_sixteenth_spec(e as int % 16) <= 125515;
    }
    r
}

/// The bend of a scratch at velocity `v / 64` while in sustained play.
pub fn scratch_bend_playing(v: i64) -> (r: i64)
    requires
        velocity_ok(v),
    ensures
        r == playing_scratch_bend(v as int),
        ONE / 2 <= r <= 2 * ONE,
{
    if v < 0 {
        (v + 128) * 512
    } else {
        (v + 64) * 1024
    }
}

/// The bend of a scratch at velocity `v / 64` while paused.
pub fn scratch_bend_paused(v: i64) -> (r: i64)
    requires
        velocity_ok(v),
    ensures
        r == paused_scratch_bend(v as int),
        factor_ok(r),
        v == 0 ==> r == ONE,
        v > 0 ==> r > 0,
        v < 0 ==> r < 0,
{
    if v == 0 {
        ONE
    } else if v > 0 {
        let p = pow2_sixteenths_exec((5 * v) as u64);
        p / 10
    } else {
        let p = pow2_sixteenths_exec((5 * (0 - v)) as u64);
        -(p / 10)
    }
}

/// Within the cap, the speed handed to the audio side is exactly the
/// product of the resampling, fader and bend factors.
pub proof fn lemma_effective_speed_is_product(resample: i64, fader: i64, bend: i64)
    requires
        resample_ok(resample),
        factor_ok(fader),
        factor_ok(bend),
        -SPEED_CAP <= speed_product(resample as int, fader as int, bend as int) <= SPEED_CAP,
    ensures
        effective_speed_spec(resample as int, fader as int, bend as int)
            == trunc_div(resample * fader * bend, ONE * ONE),
{
}

} // verus!

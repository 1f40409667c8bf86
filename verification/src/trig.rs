use vstd::prelude::*;
use vstd::arithmetic::div_mod::{
    lemma_add_mod_noop, lemma_div_pos_is_pos, lemma_mod_division_less_than_divisor,
    lemma_multiply_divide_le, lemma_mod_add_multiples_vanish, lemma_mod_sub_multiples_vanish,
    lemma_fundamental_div_mod_converse_mod,
};

verus! {

/// Number of angle units in one full turn.
pub const TURN: i64 = 65_536;
/// Half a turn: the angle of a straight line.
pub const HALF_TURN: i64 = 32_768;
/// A quarter turn: a right angle.
pub const QUARTER_TURN: i64 = 16_384;
/// Fixed-point scale of sine and cosine values; both lie in
/// `[-TRIG_ONE, TRIG_ONE]` and `TRIG_ONE` stands for 1.
pub const TRIG_ONE: i64 = 65_536;

/// The canonical form of an angle: its remainder in `[0, TURN)`.
pub open spec fn norm_val(a: int) -> int {
    a % (TURN as int)
}

/// Fixed-point sine on the first half turn (`a` in `[0, HALF_TURN]`), by the
/// rational approximation `16 p / (5 H^2 - 4 p)` with `p = a (H - a)` and
/// `H = HALF_TURN`; exact at `0`, `H / 2` and `H`.
pub open spec fn spec_sin_half(a: int) -> int {
    let p = a * (HALF_TURN - a);
    (TRIG_ONE as int) * (16 * p) / (
        5 * (HALF_TURN as int) * (HALF_TURN as int) - 4 * p
    )
}

/// Fixed-point sine of an angle in turn units; the second half turn mirrors
/// the first with opposite sign.
pub open spec fn spec_sin(a: int) -> int {
    let n = norm_val(a);
    if n <= HALF_TURN as int {
        spec_sin_half(n)
    } else {
        -spec_sin_half(n - HALF_TURN)
    }
}

/// Fixed-point cosine: the sine a quarter turn ahead.
pub open spec fn spec_cos(a: int) -> int {
    spec_sin(a + QUARTER_TURN)
}

/// Folds an angle into `[0, TURN)` by repeated subtraction or addition of a
/// full turn.
pub fn norm_angle(a0: i64) -> (r: i64)
    ensures
        r == norm_val(a0 as int),
        0 <= r < TURN,
{
    let mut a = a0;
    while a >= TURN
        invariant
            norm_val(a as int) == norm_val(a0 as int),
        decreases a,
    {
        proof {
            lemma_mod_sub_multiples_vanish(a as int, TURN as int);
        }
        a = a - TURN;
    }
    while a < 0
        invariant
            norm_val(a as int) == norm_val(a0 as int),
            a < TURN,
        decreases TURN - a,
    {
        proof {
            lemma_mod_add_multiples_vanish(a as int, TURN as int);
        }
        a = a + TURN;
    }
    proof {
        lemma_fundamental_div_mod_converse_mod(a as int, TURN as int, 0, a as int);
    }
    a
}

/// Fixed-point sine on the first half turn.
fn sin_half(n: i64) -> (r: i64)
    requires
        0 <= n <= HALF_TURN,
    ensures
        r == spec_sin_half(n as int),
        0 <= r <= TRIG_ONE,
{
    proof {
        assert(0 <= (n as int) * ((HALF_TURN - n) as int) && 4 * ((n as int) * ((
        HALF_TURN - n) as int)) <= (HALF_TURN as int) * (HALF_TURN as int))
            by (nonlinear_arith)
            requires
                0 <= n as int <= HALF_TURN as int,
        ;
    }
    let p = (n as u64) * ((HALF_TURN - n) as u64);
    let num = (TRIG_ONE as u64) * (16 * p);
    let den = 5 * (HALF_TURN as u64) * (HALF_TURN as u64) - 4 * p;
    let q = num / den;
    proof {
        lemma_div_pos_is_pos(num as int, den as int);
        assert(num as int <= (den as int) * (TRIG_ONE as int)) by (nonlinear_arith)
            requires
                num as int == (TRIG_ONE as int) * (16 * (p as int)),
                16 * (p as int) <= den as int,
                0 <= p,
        ;
        lemma_multiply_divide_le(num as int, den as int, TRIG_ONE as int);
    }
    q as i64
}

/// Fixed-point sine; the result is `spec_sin` exactly.
pub fn sin_fixed(a: i64) -> (r: i64)
    requires
        -1_000_000_000 <= a <= 1_000_000_000,
    ensures
        r == spec_sin(a as int),
        -TRIG_ONE <= r <= TRIG_ONE,
{
    let n = norm_angle(a);
    if n <= HALF_TURN {
        sin_half(n)
    } else {
        let v = sin_half(n - HALF_TURN);
        -v
    }
}

/// Fixed-point cosine; the result is `spec_cos` exactly.
pub fn cos_fixed(a: i64) -> (r: i64)
    requires
        -1_000_000_000 <= a <= 1_000_000_000,
    ensures
        r == spec_cos(a as int),
        -TRIG_ONE <= r <= TRIG_ONE,
{
    let n = norm_angle(a);
    proof {
        lemma_add_mod_noop(a as int, QUARTER_TURN as int, TURN as int);
        lemma_mod_division_less_than_divisor(QUARTER_TURN as int, TURN as int);
        lemma_fundamental_div_mod_converse_mod(
            QUARTER_TURN as int,
            TURN as int,
            0,
            QUARTER_TURN as int,
        );
        lemma_add_mod_noop(norm_val(a as int), QUARTER_TURN as int, TURN as int);
    }
    sin_fixed(n + QUARTER_TURN)
}

/// The canonical form of a quarter turn backwards: three quarters forward.
pub proof fn lemma_norm_neg_quarter()
    ensures
        norm_val(-(QUARTER_TURN as int)) == 3 * (QUARTER_TURN as int),
{
    lemma_fundamental_div_mod_converse_mod(
        -(QUARTER_TURN as int),
        TURN as int,
        -1,
        3 * (QUARTER_TURN as int),
    );
}

/// Sine and cosine at an angle of zero: facing straight along the x axis.
pub proof fn lemma_trig_at_zero()
    ensures
        spec_sin(0) == 0,
        spec_cos(0) == TRIG_ONE,
{
    lemma_fundamental_div_mod_converse_mod(0, TURN as int, 0, 0);
    lemma_fundamental_div_mod_converse_mod(QUARTER_TURN as int, TURN as int, 0, QUARTER_TURN as int);
    assert(spec_sin_half(0) == 0);
    assert((QUARTER_TURN as int) * (HALF_TURN as int - QUARTER_TURN as int) == 268435456)
        by (nonlinear_arith);
    assert((TRIG_ONE as int) * (16 * 268435456) == 281474976710656) by (nonlinear_arith);
    assert(5 * (HALF_TURN as int) * (HALF_TURN as int) == 5368709120) by (nonlinear_arith);
    assert(281474976710656int == 4294967296 * 65536) by (nonlinear_arith);
    vstd::arithmetic::div_mod::lemma_div_multiples_vanish(65536, 4294967296);
    assert(spec_sin_half(QUARTER_TURN as int) == TRIG_ONE as int);
}

} // verus!

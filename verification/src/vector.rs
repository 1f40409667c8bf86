use crate::trig::{cos_fixed, sin_fixed, spec_cos, spec_sin, TRIG_ONE};
use vstd::prelude::*;
use vstd::arithmetic::div_mod::{
    lemma_fundamental_div_mod, lemma_fundamental_div_mod_converse_div,
    lemma_fundamental_div_mod_converse_mod, lemma_mod_division_less_than_divisor,
    lemma_mod_sub_multiples_vanish, lemma_mod_add_multiples_vanish,
};

verus! {

/// Arena width in milli-units (one arena unit = 1000 milli-units).
pub const WIDTH: i64 = 600_000;
/// Arena height in milli-units.
pub const HEIGHT: i64 = 600_000;
/// Wrap margin around the arena, in milli-units.
pub const MARGIN: i64 = 15_000;
/// Length of one full torus period: `WIDTH + 2 * MARGIN`.
pub const SPAN: i64 = 630_000;

/// A coordinate folded onto the torus axis lies in `[-MARGIN, WIDTH + MARGIN)`.
pub open spec fn coord_wrapped(x: int) -> bool {
    -(MARGIN as int) <= x < (WIDTH + MARGIN) as int
}

/// The unique representative of `x` on the torus axis: congruent to `x`
/// modulo `SPAN` and inside `[-MARGIN, WIDTH + MARGIN)`.
pub open spec fn wrap_val(x: int) -> int {
    (x + MARGIN) % (SPAN as int) - MARGIN
}

/// Squared Euclidean distance between two points, without re-wrapping.
pub open spec fn spec_dist2(a: Vector, b: Vector) -> int {
    (a.x - b.x) * (a.x - b.x) + (a.y - b.y) * (a.y - b.y)
}

/// Component-wise sum, re-folded onto the torus.
pub open spec fn spec_add(a: Vector, b: Vector) -> Vector {
    Vector { x: wrap_val(a.x + b.x) as i64, y: wrap_val(a.y + b.y) as i64 }
}

/// Component-wise difference, re-folded onto the torus.
pub open spec fn spec_sub(a: Vector, b: Vector) -> Vector {
    Vector { x: wrap_val(a.x - b.x) as i64, y: wrap_val(a.y - b.y) as i64 }
}

/// The rotation of `v` by `angle` turn units, re-folded onto the torus.
pub open spec fn spec_rotated(v: Vector, angle: int) -> Vector {
    Vector {
        x: wrap_val((v.x * spec_cos(angle) - v.y * spec_sin(angle)) / (TRIG_ONE as int)) as i64,
        y: wrap_val((v.x * spec_sin(angle) + v.y * spec_cos(angle)) / (TRIG_ONE as int)) as i64,
    }
}

/// `v` scaled by `num / den` (floor division), re-folded onto the torus.
pub open spec fn spec_scaled(v: Vector, num: int, den: int) -> Vector {
    Vector { x: wrap_val(v.x * num / den) as i64, y: wrap_val(v.y * num / den) as i64 }
}

pub broadcast proof fn lemma_wrap_val_range(x: int)
    ensures
        #[trigger] coord_wrapped(wrap_val(x)),
{
    lemma_mod_division_less_than_divisor(x + MARGIN, SPAN as int);
}

/// A coordinate already on the torus is its own representative.
pub broadcast proof fn lemma_wrap_val_identity(x: int)
    requires
        coord_wrapped(x),
    ensures
        #[trigger] wrap_val(x) == x,
{
    lemma_fundamental_div_mod_converse_mod(x + MARGIN, SPAN as int, 0, x + MARGIN);
}

/// Folds a coordinate onto the torus axis by repeated subtraction or
/// addition of one full period, as the arena's wrap rule prescribes.
pub fn wrap(x0: i64) -> (r: i64)
    ensures
        r == wrap_val(x0 as int),
        coord_wrapped(r as int),
{
    let mut x = x0;
    while x >= WIDTH + MARGIN
        invariant
            wrap_val(x as int) == wrap_val(x0 as int),
        decreases x + MARGIN,
    {
        proof {
            lemma_mod_sub_multiples_vanish(x as int + MARGIN, SPAN as int);
        }
        x = x - SPAN;
    }
    while x < -MARGIN
        invariant
            wrap_val(x as int) == wrap_val(x0 as int),
            x < WIDTH + MARGIN,
        decreases WIDTH + MARGIN - x,
    {
        proof {
            lemma_mod_add_multiples_vanish(x as int + MARGIN, SPAN as int);
        }
        x = x + SPAN;
    }
    proof {
        lemma_wrap_val_identity(x as int);
    }
    x
}

/// Floor division by a positive divisor; agrees with `/` on `int`.
pub fn div_floor(n: i64, d: i64) -> (q: i64)
    requires
        1 <= d <= 1_000_000_000_000,
        -1_000_000_000_000 <= n <= 1_000_000_000_000,
    ensures
        q == n as int / d as int,
{
    if n >= 0 {
        let q = (n as u64) / (d as u64);
        q as i64
    } else {
        let m = (-n) as u64;
        let dd = d as u64;
        let qm = (m + dd - 1) / dd;
        proof {
            lemma_fundamental_div_mod((m + dd - 1) as int, dd as int);
            let qq = (m + dd - 1) as int / dd as int;
            let rr = (m + dd - 1) as int % dd as int;
            lemma_mod_division_less_than_divisor((m + dd - 1) as int, dd as int);
            // m + d - 1 == qq * d + rr, with 0 <= rr < d; show n / d == -qq.
            // n == -m == -qq * d + (d - 1 - rr), and 0 <= d - 1 - rr < d.
            assert(n as int == -qq * (d as int) + (d as int - 1 - rr)) by (nonlinear_arith)
                requires
                    m as int + dd as int - 1 == (dd as int) * qq + rr,
                    n as int == -(m as int),
                    dd as int == d as int,
            ;
            lemma_fundamental_div_mod_converse_div(
                n as int,
                d as int,
                -qq,
                d as int - 1 - rr,
            );
        }
        -(qm as i64)
    }
}

/// A 2-D point or velocity on the torus, in milli-units.
#[derive(Clone, Copy, Debug, PartialEq, Eq, Structural)]
pub struct Vector {
    pub x: i64,
    pub y: i64,
}

impl Vector {
    /// Both coordinates are folded onto the torus.
    pub open spec fn wf(self) -> bool {
        coord_wrapped(self.x as int) && coord_wrapped(self.y as int)
    }

    /// Builds a vector, folding both coordinates onto the torus.
    pub fn new(x: i64, y: i64) -> (v: Vector)
        ensures
            v.x == wrap_val(x as int),
            v.y == wrap_val(y as int),
            v.wf(),
    {
        Vector { x: wrap(x), y: wrap(y) }
    }

    /// Component-wise sum, re-folded onto the torus.
    pub fn add(self, rhs: Vector) -> (r: Vector)
        requires
            self.wf(),
            rhs.wf(),
        ensures
            r == spec_add(self, rhs),
            r.wf(),
    {
        Vector::new(self.x + rhs.x, self.y + rhs.y)
    }

    /// Component-wise difference, re-folded onto the torus.
    pub fn sub(self, rhs: Vector) -> (r: Vector)
        requires
            self.wf(),
            rhs.wf(),
        ensures
            r == spec_sub(self, rhs),
            r.wf(),
    {
        Vector::new(self.x - rhs.x, self.y - rhs.y)
    }

    /// Scales by the ratio `num / den` (floor division), re-folded onto the
    /// torus.
    pub fn scale(self, num: i64, den: i64) -> (r: Vector)
        requires
            self.wf(),
            1 <= den <= 1_000_000,
            -1_000_000 <= num <= 1_000_000,
        ensures
            r == spec_scaled(self, num as int, den as int),
            r.wf(),
    {
        proof {
            assert(-1_000_000_000_000 <= self.x * num <= 1_000_000_000_000)
                by (nonlinear_arith)
                requires
                    -1_000_000 <= self.x <= 1_000_000,
                    -1_000_000 <= num <= 1_000_000,
            ;
            assert(-1_000_000_000_000 <= self.y * num <= 1_000_000_000_000)
                by (nonlinear_arith)
                requires
                    -1_000_000 <= self.y <= 1_000_000,
                    -1_000_000 <= num <= 1_000_000,
            ;
        }
        Vector::new(div_floor(self.x * num, den), div_floor(self.y * num, den))
    }

    /// Applies the 2-D rotation matrix for `angle` (in turn units), then
    /// re-folds onto the torus.
    pub fn rotate(&self, angle: i64) -> (r: Vector)
        requires
            self.wf(),
            -1_000_000_000 <= angle <= 1_000_000_000,
        ensures
            r == spec_rotated(*self, angle as int),
            r.wf(),
    {
        let c = cos_fixed(angle);
        let s = sin_fixed(angle);
        proof {
            assert(-100_000_000_000 <= self.x * c <= 100_000_000_000
                && -100_000_000_000 <= self.y * s <= 100_000_000_000
                && -100_000_000_000 <= self.x * s <= 100_000_000_000
                && -100_000_000_000 <= self.y * c <= 100_000_000_000) by (nonlinear_arith)
                requires
                    -(SPAN as int) <= self.x <= SPAN as int,
                    -(SPAN as int) <= self.y <= SPAN as int,
                    -(TRIG_ONE as int) <= c <= TRIG_ONE as int,
                    -(TRIG_ONE as int) <= s <= TRIG_ONE as int,
            ;
        }
        let rx = div_floor(self.x * c - self.y * s, TRIG_ONE);
        let ry = div_floor(self.x * s + self.y * c, TRIG_ONE);
        Vector::new(rx, ry)
    }

    /// Squared distance between two points, without re-wrapping; this is what
    /// makes a straight step that crosses the wrap seam look like a long jump.
    pub fn dist2(a: Vector, b: Vector) -> (d: i64)
        requires
            a.wf(),
            b.wf(),
        ensures
            d == spec_dist2(a, b),
            0 <= d <= 800_000_000_000,
    {
        let dx = a.x - b.x;
        let dy = a.y - b.y;
        proof {
            assert(0 <= dx * dx <= 400_000_000_000 && 0 <= dy * dy <= 400_000_000_000)
                by (nonlinear_arith)
                requires
                    -(SPAN as int) <= dx <= SPAN as int,
                    -(SPAN as int) <= dy <= SPAN as int,
            ;
        }
        dx * dx + dy * dy
    }
}

} // verus!

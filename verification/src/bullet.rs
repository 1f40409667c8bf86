use crate::trig::{spec_cos, spec_sin, TRIG_ONE};
use crate::vector::{coord_wrapped, spec_add, spec_dist2, wrap_val, Vector, MARGIN, SPAN, WIDTH};
use vstd::arithmetic::div_mod::lemma_fundamental_div_mod_converse_mod;
use vstd::prelude::*;

verus! {

/// Magnitude of a bullet's velocity, in milli-units per tick.
pub const SPEED_SIZE: i64 = 7_000;
/// Slack added to the nominal squared step length by the aliveness check:
/// one square arena unit.
pub const ALIVE_SLACK: i64 = 1_000_000;

/// A projectile. Bullets are value objects owned by a room: created on fire,
/// destroyed once their aliveness check fails. They do not wrap; a step that
/// would cross the wrap seam kills them instead.
pub struct Bullet {
    pub color: String,
    pub pos: Vector,
    pub speed: Vector,
}

impl Clone for Bullet {
    /// An exact copy, so that contracts over broadcast objects can speak of
    /// the cloned bullet by equality.
    fn clone(&self) -> (b: Self)
        ensures
            b == *self,
    {
        Bullet { color: self.color.clone(), pos: self.pos, speed: self.speed }
    }
}

impl Bullet {
    /// Position and velocity are folded onto the torus.
    pub open spec fn wf(self) -> bool {
        self.pos.wf() && self.speed.wf()
    }

    /// A bullet is alive while the squared distance between its position and
    /// its would-be next position stays within `SPEED_SIZE^2` plus a small
    /// slack; a step across the wrap seam produces a jump far beyond that.
    pub open spec fn spec_alive(self) -> bool {
        spec_dist2(self.pos, spec_add(self.pos, self.speed))
            <= (SPEED_SIZE as int) * (SPEED_SIZE as int) + ALIVE_SLACK
    }

    /// A new bullet at `pos` whose velocity has magnitude `SPEED_SIZE` and
    /// points along the heading `rad` (in turn units).
    pub fn new(color: String, pos: Vector, rad: i64) -> (b: Bullet)
        requires
            pos.wf(),
            -1_000_000_000 <= rad <= 1_000_000_000,
        ensures
            b.color == color,
            b.pos == pos,
            b.speed.x == wrap_val(SPEED_SIZE * spec_cos(rad as int) / (TRIG_ONE as int)),
            b.speed.y == wrap_val(SPEED_SIZE * spec_sin(rad as int) / (TRIG_ONE as int)),
            b.wf(),
    {
        Bullet { color, pos, speed: Vector::new(SPEED_SIZE, 0).rotate(rad) }
    }

    /// Advances the bullet by one fixed-velocity step.
    pub fn move_by_one_frame(&mut self)
        requires
            old(self).wf(),
        ensures
            final(self).pos == spec_add(old(self).pos, old(self).speed),
            final(self).speed == old(self).speed,
            final(self).color == old(self).color,
            final(self).wf(),
    {
        self.pos = self.pos.add(self.speed);
    }

    /// The aliveness check: true exactly when the next step stays within the
    /// nominal squared step length plus the slack.
    pub fn is_alive(&self) -> (r: bool)
        requires
            self.wf(),
        ensures
            r == self.spec_alive(),
    {
        let after_moved = self.pos.add(self.speed);
        Vector::dist2(self.pos, after_moved) <= SPEED_SIZE * SPEED_SIZE + ALIVE_SLACK
    }
}


/// A torus fold across the seam moves a coordinate by at least one period
/// minus the step: the squared jump dwarfs any nominal squared step.
proof fn lemma_coord_seam_jump(p: int, s: int)
    requires
        coord_wrapped(p),
        -300_000 <= s <= 300_000,
        !coord_wrapped(p + s),
    ensures
        (p - wrap_val(p + s)) * (p - wrap_val(p + s)) >= 108_900_000_000,
{
    if p + s >= WIDTH + MARGIN {
        lemma_fundamental_div_mod_converse_mod(
            p + s + MARGIN,
            SPAN as int,
            1,
            p + s + MARGIN - SPAN,
        );
        assert(wrap_val(p + s) == p + s - SPAN);
        let d = p - wrap_val(p + s);
        assert(d >= 330_000);
        assert(d * d >= 108_900_000_000) by (nonlinear_arith)
            requires
                d >= 330_000,
        ;
    } else {
        lemma_fundamental_div_mod_converse_mod(
            p + s + MARGIN,
            SPAN as int,
            -1,
            p + s + MARGIN + SPAN,
        );
        assert(wrap_val(p + s) == p + s + SPAN);
        let d = p - wrap_val(p + s);
        assert(d <= -330_000);
        assert(d * d >= 108_900_000_000) by (nonlinear_arith)
            requires
                d <= -330_000,
        ;
    }
}

/// Away from the seam, the aliveness check measures exactly the squared
/// velocity: such a bullet is alive exactly when its speed is nominal.
pub proof fn lemma_alive_away_from_seam(b: Bullet)
    requires
        b.wf(),
        coord_wrapped(b.pos.x + b.speed.x),
        coord_wrapped(b.pos.y + b.speed.y),
    ensures
        b.spec_alive() == (b.speed.x * b.speed.x + b.speed.y * b.speed.y <= (SPEED_SIZE as int)
            * (SPEED_SIZE as int) + ALIVE_SLACK),
{
    crate::vector::lemma_wrap_val_identity(b.pos.x + b.speed.x);
    crate::vector::lemma_wrap_val_identity(b.pos.y + b.speed.y);
    let n = spec_add(b.pos, b.speed);
    assert((b.pos.x - n.x) * (b.pos.x - n.x) == b.speed.x * b.speed.x) by (nonlinear_arith)
        requires
            b.pos.x - n.x == -b.speed.x,
    ;
    assert((b.pos.y - n.y) * (b.pos.y - n.y) == b.speed.y * b.speed.y) by (nonlinear_arith)
        requires
            b.pos.y - n.y == -b.speed.y,
    ;
}

/// Bullets do not wrap: a step that would cross the seam on either axis
/// fails the aliveness check, so bullets expire at the boundary.
pub proof fn lemma_dead_on_seam(b: Bullet)
    requires
        b.wf(),
        -300_000 <= b.speed.x <= 300_000,
        -300_000 <= b.speed.y <= 300_000,
        !coord_wrapped(b.pos.x + b.speed.x) || !coord_wrapped(b.pos.y + b.speed.y),
    ensures
        !b.spec_alive(),
{
    let n = spec_add(b.pos, b.speed);
    let dx = b.pos.x - n.x;
    let dy = b.pos.y - n.y;
    assert(dx * dx >= 0 && dy * dy >= 0) by (nonlinear_arith);
    if !coord_wrapped(b.pos.x + b.speed.x) {
        lemma_coord_seam_jump(b.pos.x as int, b.speed.x as int);
    } else {
        lemma_coord_seam_jump(b.pos.y as int, b.speed.y as int);
    }
}
} // verus!\n
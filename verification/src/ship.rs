use crate::bullet::Bullet;
use crate::keystate::KeyState;
use crate::rng::random_in_range;
use crate::text::Text;
use crate::trig::{norm_angle, norm_val, spec_cos, spec_sin, TRIG_ONE, TURN};
use crate::vector::{
    coord_wrapped, lemma_wrap_val_identity, spec_add, spec_dist2, spec_rotated, spec_scaled,
    wrap_val, Vector, HEIGHT, WIDTH,
};
use vstd::prelude::*;

verus! {

/// Angular speed while a turn key is held, in turn units per tick
/// (about 0.07 radians).
pub const ROTATE_SPEED: i64 = 730;
/// Forward thrust while the up key is held, in milli-units per tick squared.
pub const ACCEL_FACTOR: i64 = 30;
/// Velocity decay applied every tick: speed is scaled by
/// `DECEL_NUM / DECEL_DEN`.
pub const DECEL_NUM: i64 = 995;
pub const DECEL_DEN: i64 = 1_000;
/// Lives a ship starts with.
pub const MAX_LIVES: u32 = 3;
/// Radius of the hit area around a ship's position, in milli-units.
pub const HIT_AREA_RADIUS: i64 = 12_000;
/// Distance from a ship's position at which its bullets appear.
pub const FIRE_OFFSET: i64 = 15_000;
/// Cooldown between shots, in ticks (500 ms at 60 ticks per second).
pub const CHARGE_TICKS: u64 = 30;
/// Delay before a dead ship revives, in ticks (1 s).
pub const RESPAWN_TICKS: u64 = 60;

/// A player's ship, owned by a room and a player id.
pub struct Ship {
    /// Slot number 0-3; decides color and spawn position.
    pub player_num: u8,
    pub color: String,
    pub pos: Vector,
    /// Heading in turn units, kept in `[0, TURN)`.
    pub rad: i64,
    pub speed: Vector,
    /// Remaining lives; only ever decreases. Zero means game over.
    pub lives: u32,
    pub is_alive: bool,
    pub is_accelerating: bool,
    /// One-way latch, set in the lobby by holding fire.
    pub is_ready: bool,
    /// Tick of the last shot.
    pub last_fire_time: u64,
    /// Tick of the last hit; repeated hits keep deferring the respawn.
    pub last_hit_time: u64,
}

impl Clone for Ship {
    /// An exact copy, so that contracts over broadcast objects can speak of
    /// the cloned ship by equality.
    fn clone(&self) -> (s: Self)
        ensures
            s == *self,
    {
        Ship {
            player_num: self.player_num,
            color: self.color.clone(),
            pos: self.pos,
            rad: self.rad,
            speed: self.speed,
            lives: self.lives,
            is_alive: self.is_alive,
            is_accelerating: self.is_accelerating,
            is_ready: self.is_ready,
            last_fire_time: self.last_fire_time,
            last_hit_time: self.last_hit_time,
        }
    }
}

impl Ship {
    pub open spec fn wf(self) -> bool {
        &&& self.pos.wf()
        &&& self.speed.wf()
        &&& 0 <= self.rad < TURN as int
        &&& self.lives <= MAX_LIVES
    }

    /// One movement step under a key snapshot: thrust if up is held, decay,
    /// drift, then turn.
    pub open spec fn spec_moved(s: Ship, k: KeyState) -> Ship {
        let v0 = if k.up {
            spec_add(s.speed, spec_rotated(Vector { x: ACCEL_FACTOR, y: 0 }, s.rad as int))
        } else {
            s.speed
        };
        let v = spec_scaled(v0, DECEL_NUM as int, DECEL_DEN as int);
        let dr = (if k.right {
            ROTATE_SPEED as int
        } else {
            0
        }) - (if k.left {
            ROTATE_SPEED as int
        } else {
            0
        });
        Ship { pos: spec_add(s.pos, v), speed: v, rad: norm_val(s.rad + dr) as i64, ..s }
    }

    /// A fresh ship for slot `player_num`, facing `rad`, with full lives.
    pub fn new(player_num: u8, color: String, pos: Vector, rad: i64, now: u64) -> (s: Ship)
        requires
            pos.wf(),
            -1_000_000_000 <= rad <= 1_000_000_000,
        ensures
            s == (Ship {
                player_num,
                color,
                pos,
                rad: norm_val(rad as int) as i64,
                speed: Vector { x: 0, y: 0 },
                lives: MAX_LIVES,
                is_alive: true,
                is_accelerating: false,
                is_ready: false,
                last_fire_time: now,
                last_hit_time: now,
            }),
            s.wf(),
    {
        proof {
            lemma_wrap_val_identity(0);
        }
        Ship {
            player_num,
            color,
            pos,
            rad: norm_angle(rad),
            speed: Vector::new(0, 0),
            lives: MAX_LIVES,
            is_alive: true,
            is_accelerating: false,
            is_ready: false,
            last_fire_time: now,
            last_hit_time: now,
        }
    }

    /// Applies the stored key snapshot for one tick: an alive ship moves; a
    /// dead ship past its respawn delay loses a life and revives at a random
    /// place; any other dead ship just waits.
    pub fn process_one_frame(&mut self, key_state: &KeyState, now: u64)
        requires
            old(self).wf(),
            old(self).is_alive || old(self).lives >= 1,
            old(self).last_hit_time <= now,
        ensures
            final(self).wf(),
            old(self).is_alive ==> *final(self) == Ship::spec_moved(
                Ship { is_accelerating: key_state.up, ..*old(self) },
                *key_state,
            ),
            !old(self).is_alive && now > old(self).last_hit_time + RESPAWN_TICKS ==> {
                &&& final(self).lives == old(self).lives - 1
                &&& final(self).is_alive
                &&& final(self).speed == (Vector { x: 0, y: 0 })
                &&& 0 <= final(self).pos.x < WIDTH && 0 <= final(self).pos.y < HEIGHT
                &&& final(self).player_num == old(self).player_num
                &&& final(self).color == old(self).color
                &&& final(self).is_ready == old(self).is_ready
                &&& final(self).is_accelerating == key_state.up
                &&& final(self).last_fire_time == old(self).last_fire_time
                &&& final(self).last_hit_time == old(self).last_hit_time
            },
            !old(self).is_alive && now <= old(self).last_hit_time + RESPAWN_TICKS ==> *final(self)
                == (Ship { is_accelerating: key_state.up, ..*old(self) }),
    {
        self.is_accelerating = key_state.up;
        if self.is_alive {
            self.move_by_one_frame(key_state);
        } else if now - self.last_hit_time > RESPAWN_TICKS {
            self.lives = self.lives - 1;
            self.is_alive = true;
            self.put_on_random_place();
        }
    }

    /// One movement step: thrust if up is held, decay, drift, then turn.
    fn move_by_one_frame(&mut self, key_state: &KeyState)
        requires
            old(self).wf(),
        ensures
            *final(self) == Ship::spec_moved(*old(self), *key_state),
            final(self).wf(),
    {
        if key_state.up {
            self.speed = self.speed.add(Vector::new(ACCEL_FACTOR, 0).rotate(self.rad));
        }
        self.speed = self.speed.scale(DECEL_NUM, DECEL_DEN);
        self.pos = self.pos.add(self.speed);

        let mut r = self.rad;
        if key_state.right {
            r = r + ROTATE_SPEED;
        }
        if key_state.left {
            r = r - ROTATE_SPEED;
        }
        self.rad = norm_angle(r);
        proof {
            lemma_wrap_val_identity(ACCEL_FACTOR as int);
            lemma_wrap_val_identity(0);
        }
    }

    /// Redraws position uniformly within the arena, heading uniformly over
    /// the full turn, and zeroes the velocity.
    pub fn put_on_random_place(&mut self)
        requires
            old(self).lives <= MAX_LIVES,
        ensures
            final(self).wf(),
            0 <= final(self).pos.x < WIDTH,
            0 <= final(self).pos.y < HEIGHT,
            0 <= final(self).rad < TURN,
            final(self).speed == (Vector { x: 0, y: 0 }),
            final(self).player_num == old(self).player_num,
            final(self).color == old(self).color,
            final(self).lives == old(self).lives,
            final(self).is_alive == old(self).is_alive,
            final(self).is_accelerating == old(self).is_accelerating,
            final(self).is_ready == old(self).is_ready,
            final(self).last_fire_time == old(self).last_fire_time,
            final(self).last_hit_time == old(self).last_hit_time,
    {
        let x = random_in_range(0, WIDTH as u64) as i64;
        let y = random_in_range(0, HEIGHT as u64) as i64;
        self.pos = Vector { x, y };
        self.rad = random_in_range(0, TURN as u64) as i64;
        self.speed = Vector { x: 0, y: 0 };
    }

    /// Fires a bullet if the ship is alive and the cooldown has elapsed,
    /// advancing the cooldown timestamp as a side effect.
    pub fn fire(&mut self, now: u64) -> (b: Option<Bullet>)
        requires
            old(self).wf(),
            old(self).last_fire_time <= now,
        ensures
            final(self).wf(),
            b is Some <==> old(self).is_alive && now > old(self).last_fire_time + CHARGE_TICKS,
            b is Some ==> {
                &&& *final(self) == (Ship { last_fire_time: now, ..*old(self) })
                &&& b->Some_0.color == old(self).color
                &&& b->Some_0.pos == spec_add(
                    old(self).pos,
                    spec_rotated(Vector { x: FIRE_OFFSET, y: 0 }, old(self).rad as int),
                )
                &&& b->Some_0.speed.x == wrap_val(
                    crate::bullet::SPEED_SIZE * spec_cos(old(self).rad as int) / (TRIG_ONE as int),
                )
                &&& b->Some_0.speed.y == wrap_val(
                    crate::bullet::SPEED_SIZE * spec_sin(old(self).rad as int) / (TRIG_ONE as int),
                )
                &&& b->Some_0.wf()
            },
            b is None ==> *final(self) == *old(self),
    {
        if self.is_alive && now - self.last_fire_time > CHARGE_TICKS {
            self.last_fire_time = now;

            proof {
                lemma_wrap_val_identity(FIRE_OFFSET as int);
                lemma_wrap_val_identity(0);
            }
            let head = self.pos.add(Vector::new(FIRE_OFFSET, 0).rotate(self.rad));
            Some(Bullet::new(self.color.clone(), head, self.rad))
        } else {
            None
        }
    }

    /// Resolves one bullet against this ship: inside the hit radius the ship
    /// is set not-alive (idempotently) and its last-hit tick is refreshed,
    /// even when it was already dead.
    pub fn collision_process(&mut self, bullet: &Bullet, now: u64)
        requires
            old(self).wf(),
            bullet.wf(),
        ensures
            final(self).wf(),
            spec_dist2(old(self).pos, bullet.pos) < (HIT_AREA_RADIUS as int) * (
            HIT_AREA_RADIUS as int) ==> *final(self) == (Ship {
                is_alive: false,
                last_hit_time: now,
                ..*old(self)
            }),
            spec_dist2(old(self).pos, bullet.pos) >= (HIT_AREA_RADIUS as int) * (
            HIT_AREA_RADIUS as int) ==> *final(self) == *old(self),
    {
        if Vector::dist2(self.pos, bullet.pos) < HIT_AREA_RADIUS * HIT_AREA_RADIUS {
            if self.is_alive {
                self.is_alive = false;
            }
            // The invincibility window keeps being deferred even while dead.
            self.last_hit_time = now;
        }
    }

    /// A ship whose life counter has reached zero is out of the game.
    pub fn is_game_over(&self) -> (r: bool)
        ensures
            r == (self.lives == 0),
    {
        self.lives == 0
    }

    /// The "READY" label rendered above a ready ship in the lobby.
    pub fn ready_text(&self) -> (t: Text)
        requires
            self.wf(),
        ensures
            t.color@ == self.color@,
            t.pos.x == self.pos.x,
            t.pos.y == wrap_val(self.pos.y + 40_000),
            t.text@ == "READY"@,
    {
        proof {
            lemma_wrap_val_identity(self.pos.x as int);
        }
        Text::new(
            self.color.clone(),
            Vector::new(self.pos.x, self.pos.y + 40_000),
            "READY".to_owned(),
        )
    }
}

} // verus!

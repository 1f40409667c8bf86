//! Verified core of a real-time multiplayer arena shooter: toroidal vector
//! math, ship/bullet physics, per-room lobby/countdown/playing/finished state
//! machine, and the room coordinator's bookkeeping.
//!
//! All coordinates are fixed-point integers in milli-units (1000 = one
//! arena unit); angles are in turn units (65536 to a full turn). The
//! transport layer (websockets, HTTP, serialization) lives outside this
//! crate and drives it with plain values.

pub mod bullet;
pub mod keystate;
mod rng;
pub mod server;
pub mod ship;
pub mod text;
pub mod tick;
pub mod trig;
pub mod vector;

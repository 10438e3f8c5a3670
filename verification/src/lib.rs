//! A verified core for a real-time space-combat simulation.
//!
//! The crate models the combat resolution and targeting pipeline of a
//! fixed-tick game: spatial target acquisition, weighted target scoring,
//! cooldown- and cone-gated weapon firing, effect spawning with instigator
//! chaining, projectiles, the evasion / shield / damage resolution chain,
//! a mortality state machine and lifetime cleanup.
//!
//! The host engine (entity storage, rendering, movement integration) is an
//! external collaborator: it feeds plain values in and reads plain values
//! back. All quantities are integers — world units for space, milliseconds
//! for time, and Q16 fixed point for cosines and probabilities.

pub mod aggression;
pub mod attack;
pub mod category;
pub mod damage;
pub mod effects;
pub mod evasion;
pub mod geom;
pub mod lifetime;
pub mod mortal;
pub mod projectile;
pub mod rng;
pub mod schedule;
pub mod shields;
pub mod spatial;
pub mod targeting;
pub mod targets;
pub mod tools;
pub mod world;

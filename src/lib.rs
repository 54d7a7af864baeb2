//! The combat core of an arena survival game, on an integer grid.
//!
//! Circle bodies move, separate and collide ([`collision`], [`physics`]);
//! hits turn into damage under cooldowns and pierce budgets ([`combat`]);
//! entities die through a deferred, once-only life cycle ([`lifecycle`],
//! [`world`]); weapons fire area attacks on their timers ([`weapons`]); and
//! experience drives level-ups and upgrades of the live weapons
//! ([`experience`], [`upgrade`]).

pub mod collision;
pub mod combat;
pub mod experience;
pub mod geometry;
pub mod lifecycle;
pub mod physics;
pub mod types;
pub mod upgrade;
pub mod weapons;
pub mod world;

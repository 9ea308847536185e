//! The simulation core of a top-down arcade game.
//!
//! A ship flies through a field of asteroids. Shot asteroids drop crystals,
//! which the player and the enemy's workers race to pick up, while the enemy's
//! warriors hunt the player. This crate holds the rules of that world and
//! nothing else: no window, no keyboard, no sound.
//!
//! The state is a [`world::World`]: a list of entities, each a row of
//! optional components, plus two counters, the viewpoint and the pending fire
//! requests. The rules are systems, functions that take the world and change
//! it: [`physics`] moves bodies and resolves their collisions, [`navigation`]
//! steers agents toward their goals, [`worker`] and [`warrior`] decide where
//! the agents go, [`shooting`] serves guns and flies projectiles, [`crystal`]
//! settles who picks up what, and [`camera`] keeps the world wrapped around
//! the viewpoint. [`simulation`] sets the game up and runs the systems of a
//! tick in their fixed order.
//!
//! All numbers are integers in thousandths ([`fixed`]), so that a tick is a
//! function of the world, the controls and the random numbers drawn, to the
//! last digit. Each system comes with a specification of what it does to the
//! world, and what follows from the rules is proved beside them: that equal
//! masses exchange opposite velocities, that an impulse conserves momentum up
//! to rounding, that a gun fires once per cooldown, that nobody is hit by its
//! own side, that a crystal goes to one taker only.
pub mod asteroid;
pub mod camera;
pub mod crystal;
pub mod fixed;
pub mod health;
pub mod navigation;
pub mod physics;
pub mod player;
pub mod rng;
pub mod score;
pub mod search;
pub mod shooting;
pub mod simulation;
pub mod team;
pub mod transform;
pub mod vec2;
pub mod warrior;
pub mod worker;
pub mod world;

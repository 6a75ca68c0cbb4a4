//! Simulation core of a local multiplayer arena shooter.
//!
//! The world holds players, each bound to one input device, and the
//! projectiles they fire. Every quantity is a fixed-point integer:
//! positions in millionths of a world unit, sizes in thousandths, time
//! in milliseconds, headings in microradians, sticks and directions in
//! thousandths.
//!
//! A frame runs the stages in a fixed order: connections, movement,
//! rotation, firing, flight, removal at the edge of the arena, hits,
//! deaths, buttons, and the reaction to changed parameters. Each stage
//! is a method of [`world::World`]; [`frame`] strings them together.

pub mod angle;
pub mod collision;
pub mod collision_laws;
pub mod config;
pub mod despawned;
pub mod entity;
pub mod frame;
pub mod geometry;
pub mod kinematics;
pub mod lifecycle;
pub mod movement;
pub mod random;
pub mod registry;
pub mod spawner;
pub mod timer;
pub mod world;

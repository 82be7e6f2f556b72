//! Simulation core of a classic snake game: a bounded two-dimensional grid
//! on which a growing body moves each tick, consumes food, and reaches a
//! terminal state on collision. Rendering, keyboard handling and the timing
//! loop live outside this crate; they feed `Direction` values in and read a
//! snapshot back.

pub mod game;
mod rng;

//! Verified core of a small 2D game engine: entity bookkeeping, keyboard
//! state, fixed-step frame pacing, broadphase pairing, body access and
//! index-buffer batching.

pub mod entity;
pub mod game_loop;
pub mod input;
pub mod physics;
pub mod renderer;

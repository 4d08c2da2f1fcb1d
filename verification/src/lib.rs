//! Donkey Run: the rules, geometry and pixel painting of a small arcade
//! dodger, with their contracts proved by Verus.

pub mod audio;
pub mod cga;
pub mod frame;
pub mod game;
pub mod render;
pub mod score;
pub mod text;

use vstd::prelude::*;

pub mod cell;
pub mod grid;
pub mod hashing;
pub mod render;
pub mod schedule;
pub mod screen;
pub mod spawn;
pub mod text;

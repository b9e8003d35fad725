//! Conway's Game of Life on an unbounded integer lattice.
//!
//! The world is a list of live cells. One generation step applies the classic
//! rule (birth on three neighbours, survival on two or three) over the Moore
//! neighbourhood, and the outline of every live cell can be listed as the six
//! corners of two triangles.

pub mod cell;
pub mod fibonacci;
pub mod life;
pub mod outline;
pub mod random;
pub mod world;

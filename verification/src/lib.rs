//! A snake game engine on an N x N grid whose boards are 128-bit bit vectors.
//!
//! Every cell of the grid is one bit position; the head, the body and the food
//! each live on a board of their own, and a step is a shift of the head bit.
pub mod bits;
pub mod chooser;
pub mod game;
pub mod laws;
pub mod lemmas;
pub mod model;

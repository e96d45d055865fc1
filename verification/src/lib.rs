//! A digital-rain terminal animation: argument handling, column state,
//! glyph choice, key handling and the diff that decides which terminal
//! cells are redrawn each frame.

pub mod text;
pub mod column;
pub mod config;
pub mod input;
pub mod renderer;

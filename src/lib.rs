//! Converts a rhythm-game chart (bar lines and index-linked note events) into an
//! editor chart built from one timepoint, slide groups and quantized note positions.
//!
//! Times are carried as whole microseconds, so every rounding decision is made in
//! exact rational arithmetic.

use vstd::prelude::*;

pub mod convert;
pub mod editor;
pub mod error;
pub mod game;
pub mod lemmas;
pub mod timing;

//! Host-side definitions for curve and transfer generation: control-point
//! interpolation, curve validation and inversion, generation options and
//! source citations.

pub mod api;
pub mod builtin;
pub mod points;
pub mod report;
pub mod text;
pub mod curve;
pub mod definitions;
pub mod document;
pub mod formula;
pub mod grammar;
pub mod emit;
pub mod ir;
pub mod rustdoc;
pub mod transfer;

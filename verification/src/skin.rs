//! Declarative skins: object model, options and per-frame evaluation helpers.

pub mod config;
pub mod model;
pub mod number;
pub mod render;
pub mod scroll;
pub mod state;

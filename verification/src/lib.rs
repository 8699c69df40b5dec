//! Verified core of a BMS rhythm-game player: result lamps and letter ranks,
//! timing judgement and score bookkeeping.

pub mod audio;
pub mod bga;
pub mod chart;
pub mod database;
pub mod judge;
pub mod keybind;
pub mod lane;
pub mod play;
pub mod rank;
pub mod settings;
pub mod skin;
pub mod text;

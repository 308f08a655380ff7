//! Verified authority rules for compiled RPG encounters: board geometry,
//! scenario validation, turn progression, bounded random evidence and
//! portable replay comparison.

pub mod area;
pub mod board;
pub mod intent;
pub mod items;
pub mod model;
pub mod random;
pub mod replay;
pub mod restore;
pub mod movement;
pub mod options;
pub mod saves;
pub mod scenario;
pub mod session;
pub mod setup;
pub mod sight;
pub mod text;
pub mod turn;

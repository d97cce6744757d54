//! Rules, state transitions and content validation for a persistent-world text RPG.

pub mod text;
pub mod content;
pub mod model;
pub mod events;
pub mod persistence;
pub mod ui;
pub mod screens;

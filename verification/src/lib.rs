//! Verified core of a terminal user interface toolkit: input events,
//! invalidation, image data and scenes, Kitty graphics planning, terminal
//! detection and lifecycle plans, and encoded-image color metadata
//! inspection.

pub mod event;
pub mod invalidation;
pub mod geometry;
pub mod image;
pub mod scene;
pub mod terminal;
pub mod sync_stream;
pub mod kitty;
pub mod wire;
pub mod text;
pub mod decode;
pub mod decode_plan;
pub mod grapheme;
pub mod ui;
pub mod input;
pub mod lifecycle;
pub mod kitty_state;
pub mod kitty_commands;

//! The logic of a desktop companion: a crab that walks along the bottom of the
//! screen and animates to reflect what coding-agent sessions are doing.

pub mod geom;
pub mod sprites;
pub mod text;
pub mod json;
pub mod event;
pub mod tracker;
pub mod inbox;
pub mod config;
pub mod brain;
pub mod menu;
pub mod app;
pub mod platform;
pub mod render;
pub mod font;

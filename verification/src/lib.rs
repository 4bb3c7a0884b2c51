//! A menu-driven command launcher: the configuration language, the menus it
//! describes, and the rules by which a selection becomes a command.

pub mod config;
pub mod error;
pub mod grammar;
pub mod laws;
pub mod lines;
pub mod menu;
pub mod render;
pub mod round_trip;
pub mod selection;
pub mod text;

pub use error::AError;
pub use menu::{Configuration, MenuConfig, MenuSystem, MenuTable};

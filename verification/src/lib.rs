//! Verified core of a tray utility that saves and restores desktop icon
//! layouts per display arrangement.

pub mod notification;
pub mod text;
pub mod monitor;
pub mod config;
pub mod layout;
pub mod status;
pub mod sync;
pub mod menu;

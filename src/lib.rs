//! Formatting engine for directory listings: ordering of entries, color
//! resolution and the multi-column grid layout.

pub mod text;
pub mod entry;
pub mod settings;
pub mod sort;
pub mod color;
pub mod layout;
pub mod fields;
pub mod render;
pub mod config;

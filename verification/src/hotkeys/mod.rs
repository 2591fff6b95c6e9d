//! Platform-neutral Hotkeys domain, conflict analysis, keymap compilation and the checks of
//! its feature-owned storage.
pub mod domain;
pub mod graph;
pub mod conflicts;
pub mod compiler;
pub mod feature;
pub mod persistence;
pub mod stability;

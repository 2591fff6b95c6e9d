//! The Qbit Toolbox core: feature metadata and registration, diagnostics, persistence policy,
//! the desktop host's status and error reporting, and the Hotkeys feature.
pub mod diagnostics;
pub mod feature_api;
pub mod host;
pub mod hotkeys;
pub mod ordering;
pub mod persistence;
pub mod runtime;
pub mod text;

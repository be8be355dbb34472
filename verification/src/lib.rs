//! Account-switching core: platform model, login-file plans, INI and VDF
//! editing, the saved-account store and the switch state machines.

pub mod model;
pub mod text;
pub mod ini;
pub mod epic;
pub mod vdf;
pub mod steam;
pub mod store;
pub mod settings;
pub mod host;
pub mod ident;
pub mod engine;
pub mod plans;
pub mod effects;
pub mod commands;
pub mod defs;
pub mod adding;

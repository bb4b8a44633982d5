//! Month-scoped meal-planning datasets: entities, referential-integrity
//! rules for removal, a session state machine over one loaded dataset,
//! a registry of datasets present on disk, and the text encoding used
//! to persist a dataset.

pub mod codec;
pub mod codec_data;
pub mod commands;
pub mod engine;
pub mod idmap;
pub mod model;
pub mod numfmt;
pub mod registry;
pub mod session;
pub mod trusted;

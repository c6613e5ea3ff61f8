//! What manifests and configuration files say.
pub mod asset_table;
pub mod cargo;
pub mod manifest;
pub mod merge;
pub mod workspace;

//! What holds of the library as a whole: what its operations are for, in terms of what goes in and
//! what comes out.
pub mod arch;
pub mod archive;
pub mod binaries;
pub mod building;
pub mod control;
pub mod copyright;
pub mod depends;
pub mod errors;
pub mod files;
pub mod generated;
pub mod headers;
pub mod merging;
pub mod messages;
pub mod options;
pub mod package;
pub mod paths;
pub mod rules;
pub mod selection;
pub mod services;
pub mod settings;
pub mod symbols;
pub mod texts;
pub mod warnings;

//! The archives that a Debian package consists of.
pub mod archive;
pub mod archiving;
pub mod control;
pub mod data;
pub mod links;
pub mod members;
pub mod reading;
pub mod tar_blocks;
pub mod tarball;
pub mod unpacking;
pub mod writing;

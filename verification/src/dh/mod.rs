//! What `debhelper` does for packages.
pub mod dh_installsystemd;
pub mod dh_installsysusers;
pub mod dh_lib;

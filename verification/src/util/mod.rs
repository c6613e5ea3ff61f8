//! Small helpers.
pub mod pathbytes;
pub mod wordsplit;

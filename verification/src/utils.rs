//! Time-code and file-path helpers.
pub mod file;
pub mod time;

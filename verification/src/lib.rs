pub mod bsearch;
pub mod buffer;
pub mod config;
pub mod disk;

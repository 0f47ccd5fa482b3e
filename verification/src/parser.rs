pub mod base;
pub mod laws;
pub mod types;

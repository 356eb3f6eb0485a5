pub mod buffer;
pub mod types;

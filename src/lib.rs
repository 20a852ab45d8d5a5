pub mod engine;
pub mod glob;
pub mod text;
pub mod config;
pub mod firefox;

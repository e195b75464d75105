pub mod daemon;
pub mod kpath;
pub mod kubo_config;
pub mod kubo_manager;
pub mod operations;

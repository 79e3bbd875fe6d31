pub mod allocator;
pub mod caddy;
pub mod cli;
pub mod config;
pub mod dependencies;
pub mod error;
pub mod init;
pub mod name;
pub mod name_map;
pub mod output;
pub mod registry;
pub mod report;
pub mod text;

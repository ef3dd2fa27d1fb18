//! Host list, fuzzy finder and key handling of a terminal launcher for SSH
//! connections, with the parsing of SSH client configuration files.

pub mod app;
pub mod cli;
pub mod host;
pub mod screen;
pub mod ssh_config;
pub mod text;

//! ipm: the package-management logic of the IPM package manager.
pub mod text;
pub mod control;
pub mod package;
pub mod third;
pub mod www;
pub mod utilities;
pub mod utils;
pub mod library;
pub mod help;
pub mod server;
pub mod cli;
pub mod system;

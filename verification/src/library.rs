//! The package store: where IPM keeps its files, and the packages
//! installed in it.
pub mod package;
pub mod system;

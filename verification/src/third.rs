//! Package sources of other package managers.
pub mod apt;

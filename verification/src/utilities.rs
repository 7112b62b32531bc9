//! Shell helpers of the earlier command set.
pub mod shell;

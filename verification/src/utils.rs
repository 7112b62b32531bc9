//! Shell helpers: coloured text and the answers of interactive questions.
pub mod shell;

//! Coloured terminal text.
use crate::utils::shell::color_text;
use vstd::prelude::*;

verus! {

/// `txt` in the 24-bit terminal colour `(r, g, b)` (see `color_text`).
pub fn color_txt(txt: &str, r: u8, g: u8, b: u8) -> (s: String)
    ensures
        s@ == color_text(txt@, r, g, b),
{
    crate::utils::shell::color_txt(txt, r, g, b)
}

/// The exit status and standard output of a shell command.
pub struct ShellResult {
    pub status: u8,
    pub output: String,
}

} // verus!

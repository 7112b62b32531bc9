//! The list of installed packages.
use super::PackageInfo;
use crate::text::{append_chars, chars_of, string_of};
use crate::utils::shell::{color_text, color_txt};
use vstd::prelude::*;

verus! {

/// The installed packages, when the list was made, and a count.
#[derive(Debug)]
pub struct PackageList {
    pub packages: Vec<PackageInfo>,
    pub date: String,
    pub count: usize,
}

/// How the list of installed packages shows a package: its id in green, its
/// version and its author's id.
pub open spec fn installed_text(info: PackageInfo) -> Seq<char> {
    color_text(info.about.id@, 0, 255, 0) + "(version: "@ + info.about.version@ + ") by "@
        + info.about.author.id@
}

/// The line that lists the installed package `info`.
pub fn installed_line(info: &PackageInfo) -> (r: String)
    ensures
        r@ == installed_text(*info),
{
    let mut acc: Vec<char> = Vec::new();
    append_chars(&mut acc, chars_of(color_txt(info.about.id.as_str(), 0, 255, 0).as_str()).as_slice());
    append_chars(&mut acc, chars_of("(version: ").as_slice());
    append_chars(&mut acc, chars_of(info.about.version.as_str()).as_slice());
    append_chars(&mut acc, chars_of(") by ").as_slice());
    append_chars(&mut acc, chars_of(info.about.author.id.as_str()).as_slice());
    string_of(acc.as_slice())
}

} // verus!

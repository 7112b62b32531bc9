//! Installed packages as their `information.json` describes them.
pub mod install;
pub mod list;

use vstd::prelude::*;

verus! {

#[derive(Debug)]
pub struct Author {
    pub name: String,
    pub id: String,
}

/// A dependency as written in an installed package's description.
#[derive(Debug)]
pub struct DependInfo {
    pub depend_type: String,
    pub name: String,
    pub version: String,
}

/// Files of a package and where they go: `from` is in the package, each of
/// `to` is a place outside it.
#[derive(Debug)]
pub struct FileMapping {
    pub from: String,
    pub to: Vec<String>,
    pub file_type: String,
}

#[derive(Debug)]
pub struct Files {
    pub global: Vec<FileMapping>,
    pub local: Vec<FileMapping>,
}

#[derive(Debug)]
pub struct About {
    pub name: String,
    pub id: String,
    pub version: String,
    pub author: Author,
    pub description: String,
    pub license: String,
    pub dependencies: Vec<DependInfo>,
    pub architecture: Vec<String>,
}

/// The description of an installed package.
#[derive(Debug)]
pub struct PackageInfo {
    pub about: About,
    pub files: Files,
}

} // verus!

//! Package records of apt repositories and of `.deb` packages.
use crate::control::{
    keys_unique, lemma_field_order_free, list_field, list_field_of, number_field,
    number_field_of, parse_fields, string_views, text_field, text_field_of,
};
use crate::text::lines;
use vstd::prelude::*;

verus! {

/// A package as an apt repository index describes it.
#[derive(Debug, PartialEq)]
pub struct AptPackageInfo {
    pub package: String,
    pub architecture: String,
    pub version: String,
    pub priority: String,
    pub section: String,
    pub origin: String,
    pub maintainer: String,
    pub original_maintainer: String,
    pub bugs: String,
    pub installed_size: u64,
    pub depends: Vec<String>,
    pub recommended: Vec<String>,
    pub suggests: Vec<String>,
    pub conflicts: Vec<String>,
    pub breaks: Vec<String>,
    pub filename: String,
    pub size: u64,
    pub md5sum: String,
    pub sha1: String,
    pub sha256: String,
    pub sha512: String,
    pub homepage: String,
    pub description: String,
    pub task: Vec<String>,
    pub description_md5: String,
}

/// Whether `info` holds the fields of the record `data`.
pub open spec fn apt_record_fields(info: AptPackageInfo, data: Seq<char>) -> bool {
    &&& info.package@ == text_field(data, "Package"@)
    &&& info.architecture@ == text_field(data, "Architecture"@)
    &&& info.version@ == text_field(data, "Version"@)
    &&& info.priority@ == text_field(data, "Priority"@)
    &&& info.section@ == text_field(data, "Section"@)
    &&& info.origin@ == text_field(data, "Origin"@)
    &&& info.maintainer@ == text_field(data, "Maintainer"@)
    &&& info.original_maintainer@ == text_field(data, "Original-Maintainer"@)
    &&& info.bugs@ == text_field(data, "Bugs"@)
    &&& info.installed_size == number_field(data, "Installed-Size"@)
    &&& string_views(info.depends@) == list_field(data, "Depends"@, ", "@)
    &&& string_views(info.recommended@) == list_field(data, "Recommends"@, ", "@)
    &&& string_views(info.suggests@) == list_field(data, "Suggests"@, ", "@)
    &&& string_views(info.conflicts@) == list_field(data, "Conflicts"@, ", "@)
    &&& string_views(info.breaks@) == list_field(data, "Breaks"@, ", "@)
    &&& info.filename@ == text_field(data, "Filename"@)
    &&& info.size == number_field(data, "Size"@)
    &&& info.md5sum@ == text_field(data, "MD5sum"@)
    &&& info.sha1@ == text_field(data, "SHA1"@)
    &&& info.sha256@ == text_field(data, "SHA256"@)
    &&& info.sha512@ == text_field(data, "SHA512"@)
    &&& info.homepage@ == text_field(data, "Homepage"@)
    &&& info.description@ == text_field(data, "Description"@)
    &&& string_views(info.task@) == list_field(data, "Task"@, ", "@)
    &&& info.description_md5@ == text_field(data, "Description-md5"@)
}

impl AptPackageInfo {
    /// Reads a package record of an apt index: one `Key: value` field per
    /// line; a missing field reads as empty (numbers as 0, lists as no items);
    /// lists are separated by `", "`.
    pub fn from_string(data: &str) -> (r: Result<Self, String>)
        ensures
            r matches Ok(info) && apt_record_fields(info, data@),
    {
        proof {
            reveal_strlit(", ");
        }
        let fs = parse_fields(data);
        let package = text_field_of(&fs, "Package");
        let architecture = text_field_of(&fs, "Architecture");
        let version = text_field_of(&fs, "Version");
        let priority = text_field_of(&fs, "Priority");
        let section = text_field_of(&fs, "Section");
        let origin = text_field_of(&fs, "Origin");
        let maintainer = text_field_of(&fs, "Maintainer");
        let original_maintainer = text_field_of(&fs, "Original-Maintainer");
        let bugs = text_field_of(&fs, "Bugs");
        let installed_size = number_field_of(&fs, "Installed-Size");
        let depends = list_field_of(&fs, "Depends", ", ");
        let recommended = list_field_of(&fs, "Recommends", ", ");
        let suggests = list_field_of(&fs, "Suggests", ", ");
        let conflicts = list_field_of(&fs, "Conflicts", ", ");
        let breaks = list_field_of(&fs, "Breaks", ", ");
        let filename = text_field_of(&fs, "Filename");
        let size = number_field_of(&fs, "Size");
        let md5sum = text_field_of(&fs, "MD5sum");
        let sha1 = text_field_of(&fs, "SHA1");
        let sha256 = text_field_of(&fs, "SHA256");
        let sha512 = text_field_of(&fs, "SHA512");
        let homepage = text_field_of(&fs, "Homepage");
        let description = text_field_of(&fs, "Description");
        let task = list_field_of(&fs, "Task", ", ");
        let description_md5 = text_field_of(&fs, "Description-md5");
        Ok(AptPackageInfo {
            package,
            architecture,
            version,
            priority,
            section,
            origin,
            maintainer,
            original_maintainer,
            bugs,
            installed_size,
            depends,
            recommended,
            suggests,
            conflicts,
            breaks,
            filename,
            size,
            md5sum,
            sha1,
            sha256,
            sha512,
            homepage,
            description,
            task,
            description_md5,
        })
    }
}

/// A package as the control file of a `.deb` archive describes it.
#[derive(Debug, PartialEq)]
pub struct DebPackageInfo {
    pub package: String,
    pub version: String,
    pub architecture: String,
    pub maintainer: String,
    pub installed_size: u64,
    pub depends: Vec<String>,
    pub conflicts: Vec<String>,
    pub breaks: Vec<String>,
    pub replaces: Vec<String>,
    pub section: String,
    pub priority: String,
    pub homepage: String,
    pub description: String,
    pub original_maintainer: String,
}

/// Whether `info` holds the fields of the record `data`.
pub open spec fn deb_record_fields(info: DebPackageInfo, data: Seq<char>) -> bool {
    &&& info.package@ == text_field(data, "Package"@)
    &&& info.version@ == text_field(data, "Version"@)
    &&& info.architecture@ == text_field(data, "Architecture"@)
    &&& info.maintainer@ == text_field(data, "Maintainer"@)
    &&& info.installed_size == number_field(data, "Installed-Size"@)
    &&& string_views(info.depends@) == list_field(data, "Depends"@, ", "@)
    &&& string_views(info.conflicts@) == list_field(data, "Conflicts"@, ", "@)
    &&& string_views(info.breaks@) == list_field(data, "Breaks"@, ", "@)
    &&& string_views(info.replaces@) == list_field(data, "Replaces"@, ", "@)
    &&& info.section@ == text_field(data, "Section"@)
    &&& info.priority@ == text_field(data, "Priority"@)
    &&& info.homepage@ == text_field(data, "Homepage"@)
    &&& info.description@ == text_field(data, "Description"@)
    &&& info.original_maintainer@ == text_field(data, "Original-Maintainer"@)
}

impl DebPackageInfo {
    /// Reads the control record of a `.deb` package, in the same form as
    /// `AptPackageInfo::from_string`.
    pub fn from_string(data: &str) -> (r: Result<Self, String>)
        ensures
            r matches Ok(info) && deb_record_fields(info, data@),
    {
        proof {
            reveal_strlit(", ");
        }
        let fs = parse_fields(data);
        let package = text_field_of(&fs, "Package");
        let version = text_field_of(&fs, "Version");
        let architecture = text_field_of(&fs, "Architecture");
        let maintainer = text_field_of(&fs, "Maintainer");
        let installed_size = number_field_of(&fs, "Installed-Size");
        let depends = list_field_of(&fs, "Depends", ", ");
        let conflicts = list_field_of(&fs, "Conflicts", ", ");
        let breaks = list_field_of(&fs, "Breaks", ", ");
        let replaces = list_field_of(&fs, "Replaces", ", ");
        let section = text_field_of(&fs, "Section");
        let priority = text_field_of(&fs, "Priority");
        let homepage = text_field_of(&fs, "Homepage");
        let description = text_field_of(&fs, "Description");
        let original_maintainer = text_field_of(&fs, "Original-Maintainer");
        Ok(DebPackageInfo {
            package,
            version,
            architecture,
            maintainer,
            installed_size,
            depends,
            conflicts,
            breaks,
            replaces,
            section,
            priority,
            homepage,
            description,
            original_maintainer,
        })
    }
}

/// Law: reading an apt package record gives the same package whatever the
/// order of its lines, when no two of its field lines have the same key.
pub proof fn lemma_apt_record_order_free(info: AptPackageInfo, d1: Seq<char>, d2: Seq<char>)
    requires
        lines(d2).to_multiset() == lines(d1).to_multiset(),
        keys_unique(lines(d1)),
        apt_record_fields(info, d1),
    ensures
        apt_record_fields(info, d2),
{
    lemma_field_order_free(d1, d2);
}

/// Law: the same holds of the control record of a `.deb` package.
pub proof fn lemma_deb_record_order_free(info: DebPackageInfo, d1: Seq<char>, d2: Seq<char>)
    requires
        lines(d2).to_multiset() == lines(d1).to_multiset(),
        keys_unique(lines(d1)),
        deb_record_fields(info, d1),
    ensures
        deb_record_fields(info, d2),
{
    lemma_field_order_free(d1, d2);
}

} // verus!

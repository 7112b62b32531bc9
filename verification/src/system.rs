//! Setting up IPM's own directories: what the `init` command was asked,
//! and which directories and files a fresh work directory holds.
use crate::control::string_views;
use crate::text::{chars_of, trim, trim_chars};
use vstd::prelude::*;

verus! {

/// What the arguments of `init` ask for.
#[derive(Debug, Clone, Copy, PartialEq, Eq, Structural)]
pub enum InitRequest {
    /// No argument: ask the user to confirm first.
    Ask,
    /// `local`: set up for the current user.
    Local,
    /// `global`: set up for the whole system.
    Global,
    /// One argument that is neither `local` nor `global`.
    BadArgument,
    /// More than one argument.
    BadCount,
}

pub open spec fn init_request_of(args: Seq<Seq<char>>) -> InitRequest {
    if args.len() == 0 {
        InitRequest::Ask
    } else if args.len() == 1 {
        if args[0] == "local"@ {
            InitRequest::Local
        } else if args[0] == "global"@ {
            InitRequest::Global
        } else {
            InitRequest::BadArgument
        }
    } else {
        InitRequest::BadCount
    }
}

fn is_word(s: &str, w: &str) -> (b: bool)
    ensures
        b == (s@ == w@),
{
    crate::control::same_chars(chars_of(s).as_slice(), chars_of(w).as_slice())
}

pub fn init_request(args: &Vec<String>) -> (r: InitRequest)
    ensures
        r == init_request_of(string_views(args@)),
{
    if args.len() == 0 {
        InitRequest::Ask
    } else if args.len() == 1 {
        if is_word(args[0].as_str(), "local") {
            InitRequest::Local
        } else if is_word(args[0].as_str(), "global") {
            InitRequest::Global
        } else {
            InitRequest::BadArgument
        }
    } else {
        InitRequest::BadCount
    }
}

/// An answer to a yes/no confirmation.
#[derive(Debug, Clone, Copy, PartialEq, Eq, Structural)]
pub enum Confirmation {
    Proceed,
    Cancel,
    /// Neither: ask again.
    Invalid,
}

/// The answer that the line `input` gives, once trimmed: `y`, `Y`, `yes`,
/// `Yes` or `YES` proceed; `n`, `N`, `no`, `No` or `NO` cancel.
pub open spec fn confirmation_of(input: Seq<char>) -> Confirmation {
    let a = trim(input);
    if a == "y"@ || a == "Y"@ || a == "yes"@ || a == "Yes"@ || a == "YES"@ {
        Confirmation::Proceed
    } else if a == "n"@ || a == "N"@ || a == "no"@ || a == "No"@ || a == "NO"@ {
        Confirmation::Cancel
    } else {
        Confirmation::Invalid
    }
}

fn is_chars(a: &Vec<char>, w: &str) -> (b: bool)
    ensures
        b == (a@ == w@),
{
    crate::control::same_chars(a.as_slice(), chars_of(w).as_slice())
}

pub fn confirmation(input: &str) -> (r: Confirmation)
    ensures
        r == confirmation_of(input@),
{
    let a = trim_chars(chars_of(input).as_slice());
    if is_chars(&a, "y") || is_chars(&a, "Y") || is_chars(&a, "yes") || is_chars(&a, "Yes")
        || is_chars(&a, "YES") {
        Confirmation::Proceed
    } else if is_chars(&a, "n") || is_chars(&a, "N") || is_chars(&a, "no") || is_chars(&a, "No")
        || is_chars(&a, "NO") {
        Confirmation::Cancel
    } else {
        Confirmation::Invalid
    }
}

/// A directory, or a file with what a new one is written with (`None`: it
/// is left empty), relative to the work directory.
pub struct LayoutEntry {
    pub path: String,
    pub is_dir: bool,
    pub content: Option<String>,
}

pub open spec fn entry_view(e: LayoutEntry) -> (Seq<char>, bool, Option<Seq<char>>) {
    (e.path@, e.is_dir, match e.content {
        Some(c) => Some(c@),
        None => None,
    })
}

pub open spec fn dir_entry(p: Seq<char>) -> (Seq<char>, bool, Option<Seq<char>>) {
    (p, true, None)
}

pub open spec fn file_entry(p: Seq<char>, c: Option<Seq<char>>) -> (Seq<char>, bool, Option<Seq<char>>) {
    (p, false, c)
}

/// What a fresh work directory holds, in the order it is made: the package
/// store with its empty list, the list of package servers (`www_list`: the
/// serialised empty list), the binaries' information, the settings, the
/// log and the temporary directory. Nothing that exists already is touched.
pub open spec fn system_layout(www_list: Seq<char>) -> Seq<(Seq<char>, bool, Option<Seq<char>>)> {
    seq![
        dir_entry("package"@),
        file_entry("package/list.json"@, Some("{}"@)),
        dir_entry("www"@),
        file_entry("www/list.json"@, Some(www_list)),
        dir_entry("bin"@),
        file_entry("bin/ipm-info.json"@, Some("{}"@)),
        dir_entry("setting"@),
        file_entry("setting/setting.json"@, Some("{}"@)),
        dir_entry("log"@),
        file_entry("log/log.txt"@, None),
        dir_entry("tmp"@),
        file_entry("tmp/tmp"@, None),
    ]
}

fn dir(p: &str) -> (e: LayoutEntry)
    ensures
        entry_view(e) == dir_entry(p@),
{
    LayoutEntry { path: p.to_owned(), is_dir: true, content: None }
}

fn file(p: &str, c: Option<&str>) -> (e: LayoutEntry)
    ensures
        entry_view(e) == file_entry(p@, match c {
            Some(t) => Some(t@),
            None => None,
        }),
{
    let content = match c {
        Some(t) => Some(t.to_owned()),
        None => None,
    };
    LayoutEntry { path: p.to_owned(), is_dir: false, content }
}

pub fn system_layout_entries(www_list: &str) -> (r: Vec<LayoutEntry>)
    ensures
        r@.map_values(|e: LayoutEntry| entry_view(e)) == system_layout(www_list@),
{
    let mut r: Vec<LayoutEntry> = Vec::new();
    r.push(dir("package"));
    r.push(file("package/list.json", Some("{}")));
    r.push(dir("www"));
    r.push(file("www/list.json", Some(www_list)));
    r.push(dir("bin"));
    r.push(file("bin/ipm-info.json", Some("{}")));
    r.push(dir("setting"));
    r.push(file("setting/setting.json", Some("{}")));
    r.push(dir("log"));
    r.push(file("log/log.txt", None));
    r.push(dir("tmp"));
    r.push(file("tmp/tmp", None));
    assert(r@.map_values(|e: LayoutEntry| entry_view(e)) =~= system_layout(www_list@));
    r
}

} // verus!

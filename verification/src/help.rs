//! Help and welcome texts.
use crate::text::{chars_of, replace, replace_chars, string_of};
use vstd::prelude::*;

verus! {

/// The subjects there is help on.
#[derive(Debug, Clone, Copy, PartialEq, Eq, Structural)]
pub enum HelpTopic {
    General,
    System,
    All,
    Install,
    Uninstall,
    Update,
    Search,
    Detail,
}

/// The subject a help request names: the empty name asks for the general
/// help.
pub open spec fn topic_of(t: Seq<char>) -> Option<HelpTopic> {
    if t == ""@ {
        Some(HelpTopic::General)
    } else if t == "system"@ {
        Some(HelpTopic::System)
    } else if t == "all"@ {
        Some(HelpTopic::All)
    } else if t == "install"@ {
        Some(HelpTopic::Install)
    } else if t == "uninstall"@ {
        Some(HelpTopic::Uninstall)
    } else if t == "update"@ {
        Some(HelpTopic::Update)
    } else if t == "search"@ {
        Some(HelpTopic::Search)
    } else if t == "detail"@ {
        Some(HelpTopic::Detail)
    } else {
        None
    }
}

fn is_text(t: &Vec<char>, w: &str) -> (b: bool)
    ensures
        b == (t@ == w@),
{
    crate::control::same_chars(t.as_slice(), chars_of(w).as_slice())
}

/// The subject of the help request `help_type`; `None` when there is no
/// help on it.
pub fn help_topic(help_type: &str) -> (r: Option<HelpTopic>)
    ensures
        r == topic_of(help_type@),
{
    let t = chars_of(help_type);
    if is_text(&t, "") {
        Some(HelpTopic::General)
    } else if is_text(&t, "system") {
        Some(HelpTopic::System)
    } else if is_text(&t, "all") {
        Some(HelpTopic::All)
    } else if is_text(&t, "install") {
        Some(HelpTopic::Install)
    } else if is_text(&t, "uninstall") {
        Some(HelpTopic::Uninstall)
    } else if is_text(&t, "update") {
        Some(HelpTopic::Update)
    } else if is_text(&t, "search") {
        Some(HelpTopic::Search)
    } else if is_text(&t, "detail") {
        Some(HelpTopic::Detail)
    } else {
        None
    }
}

/// A help text with each `{command_name}` replaced by the command's name.
pub fn fill_help(text: &str, command_name: &str) -> (r: String)
    ensures
        r@ == replace(text@, "{command_name}"@, command_name@),
{
    proof {
        reveal_strlit("{command_name}");
    }
    string_of(
        replace_chars(
            chars_of(text).as_slice(),
            chars_of("{command_name}").as_slice(),
            chars_of(command_name).as_slice(),
        ).as_slice(),
    )
}

/// The welcome text: each `{version}` replaced by the version, then each
/// `{command_name}` by the command's name.
pub fn welcome_text(template: &str, version: &str, command_name: &str) -> (r: String)
    ensures
        r@ == replace(replace(template@, "{version}"@, version@), "{command_name}"@, command_name@),
{
    proof {
        reveal_strlit("{version}");
        reveal_strlit("{command_name}");
    }
    let once = replace_chars(
        chars_of(template).as_slice(),
        chars_of("{version}").as_slice(),
        chars_of(version).as_slice(),
    );
    string_of(
        replace_chars(
            once.as_slice(),
            chars_of("{command_name}").as_slice(),
            chars_of(command_name).as_slice(),
        ).as_slice(),
    )
}

} // verus!

//! Setting up a package server of one's own.
use crate::text::{append_chars, chars_of, string_of};
use vstd::prelude::*;

verus! {

/// What `ipm-info.json` of a package server says of it.
pub struct IPMserverInfo {
    pub server: ServerInfo,
    pub author: AuthorInfo,
    pub version: String,
}

pub struct ServerInfo {
    pub name: String,
    pub id: String,
}

pub struct AuthorInfo {
    pub name: String,
    pub id: String,
    pub email: String,
}

/// The README of a new package server.
pub open spec fn readme_text(name: Seq<char>, id: Seq<char>, user: Seq<char>, email: Seq<char>, version: Seq<char>) -> Seq<char> {
    "# "@ + name + "\n\n**Server ID:** "@ + id + "\n\n**Author:** "@ + user + "\n\n**Email:** "@ + email
        + "\n\n**Version:** "@ + version + "\n\nThis is the README file for the IPM server '"@ + name
        + "'."@
}

/// The README of a new package server, from what its author entered.
pub fn server_readme(server_name: &str, server_id: &str, user_name: &str, user_email: &str, version: &str) -> (r: String)
    ensures
        r@ == readme_text(server_name@, server_id@, user_name@, user_email@, version@),
{
    let mut acc = chars_of("# ");
    append_chars(&mut acc, chars_of(server_name).as_slice());
    append_chars(&mut acc, chars_of("\n\n**Server ID:** ").as_slice());
    append_chars(&mut acc, chars_of(server_id).as_slice());
    append_chars(&mut acc, chars_of("\n\n**Author:** ").as_slice());
    append_chars(&mut acc, chars_of(user_name).as_slice());
    append_chars(&mut acc, chars_of("\n\n**Email:** ").as_slice());
    append_chars(&mut acc, chars_of(user_email).as_slice());
    append_chars(&mut acc, chars_of("\n\n**Version:** ").as_slice());
    append_chars(&mut acc, chars_of(version).as_slice());
    append_chars(&mut acc, chars_of("\n\nThis is the README file for the IPM server '").as_slice());
    append_chars(&mut acc, chars_of(server_name).as_slice());
    append_chars(&mut acc, chars_of("'.").as_slice());
    string_of(acc.as_slice())
}

/// What setting up a package server comes to, once its details were
/// asked for.
#[derive(Debug, Clone, Copy, PartialEq, Eq, Structural)]
pub enum ServerInitStep {
    /// The details were confirmed and the server's directory is new: it is
    /// created.
    Create,
    /// The details were not confirmed.
    Canceled,
    /// The server's directory exists already: nothing is done.
    AlreadyExists,
}

/// The step after the confirmation answer `check` (`"yes"` confirms),
/// `dir_exists` telling whether the server's directory exists. The answer
/// is looked at first.
pub open spec fn init_step_of(check: Seq<char>, dir_exists: bool) -> ServerInitStep {
    if check != "yes"@ {
        ServerInitStep::Canceled
    } else if dir_exists {
        ServerInitStep::AlreadyExists
    } else {
        ServerInitStep::Create
    }
}

pub fn server_init_step(check: &str, dir_exists: bool) -> (r: ServerInitStep)
    ensures
        r == init_step_of(check@, dir_exists),
{
    if !crate::control::same_chars(chars_of(check).as_slice(), chars_of("yes").as_slice()) {
        ServerInitStep::Canceled
    } else if dir_exists {
        ServerInitStep::AlreadyExists
    } else {
        ServerInitStep::Create
    }
}

} // verus!

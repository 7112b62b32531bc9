//! The command line: which action a command and its arguments ask for.
use crate::control::string_views;
use crate::text::chars_of;
use vstd::prelude::*;

verus! {

/// What the command line asks IPM to do.
pub enum CliAction {
    /// No command: show the welcome text.
    Welcome,
    SystemConfigure,
    /// Show the help on a subject (the empty subject: general help).
    Help(String),
    ListInstalled,
    Uninstall(Vec<String>),
    UpdateList,
    Search,
    /// Show the details of each named package (none: nothing to do).
    Detail(Vec<String>),
    Install(Vec<String>),
    Version,
    Easter,
    WwwAdd(Vec<String>),
    WwwRemove(Vec<String>),
    WwwUpdate,
    WwwList,
    ServerBuild,
    ServerInit,
    Test,
    /// A known command with arguments it does not act on.
    Nothing,
    /// An unknown command.
    NotFound(String),
}

/// Whether `r` is the action that the command `cmd` with the arguments
/// `args` asks for.
pub open spec fn action_for(cmd: Seq<char>, args: Seq<Seq<char>>, r: CliAction) -> bool {
    if cmd == "system"@ {
        if args.len() > 0 {
            if args[0] == "configure"@ {
                r is SystemConfigure
            } else {
                r is Nothing
            }
        } else {
            r matches CliAction::Help(t) && t@ == "system"@
        }
    } else if cmd == "list"@ {
        r is ListInstalled
    } else if cmd == "uninstall"@ {
        if args.len() > 0 {
            r matches CliAction::Uninstall(v) && string_views(v@) == args
        } else {
            r matches CliAction::Help(t) && t@ == "uninstall"@
        }
    } else if cmd == "update"@ {
        r is UpdateList
    } else if cmd == "search"@ {
        r is Search
    } else if cmd == "detail"@ {
        r matches CliAction::Detail(v) && string_views(v@) == args
    } else if cmd == "help"@ {
        r matches CliAction::Help(t) && t@ == if args.len() > 0 {
            args[0]
        } else {
            ""@
        }
    } else if cmd == "install"@ {
        if args.len() > 0 {
            r matches CliAction::Install(v) && string_views(v@) == args
        } else {
            r matches CliAction::Help(t) && t@ == "install"@
        }
    } else if cmd == "version"@ {
        r is Version
    } else if cmd == "beleave"@ {
        r is Easter
    } else if cmd == "www"@ {
        if args.len() > 0 {
            if args[0] == "add"@ {
                r matches CliAction::WwwAdd(v) && string_views(v@) == args.skip(1)
            } else if args[0] == "remove"@ {
                r matches CliAction::WwwRemove(v) && string_views(v@) == args.skip(1)
            } else if args[0] == "update"@ {
                r is WwwUpdate
            } else if args[0] == "list"@ {
                r is WwwList
            } else {
                r matches CliAction::Help(t) && t@ == "www"@
            }
        } else {
            r matches CliAction::Help(t) && t@ == "www"@
        }
    } else if cmd == "server"@ {
        if args.len() > 0 {
            if args[0] == "build"@ {
                r is ServerBuild
            } else if args[0] == "init"@ {
                r is ServerInit
            } else {
                r matches CliAction::Help(t) && t@ == "server"@
            }
        } else {
            r matches CliAction::Help(t) && t@ == "server"@
        }
    } else if cmd == "test"@ {
        r is Test
    } else {
        r matches CliAction::NotFound(c) && c@ == cmd
    }
}

/// Law: the commands that name packages pass every one of them on, in
/// order; `help` passes its subject; `www add` and `www remove` pass the
/// arguments after the subcommand.
pub proof fn lemma_commands_pass_arguments(args: Seq<Seq<char>>, r: CliAction)
    ensures
        action_for("uninstall"@, args, r) && args.len() > 0 ==> (r matches CliAction::Uninstall(v)
            && v@.len() == args.len() && forall|i: int| 0 <= i < args.len() ==> #[trigger] v@[i]@ == args[i]),
        action_for("install"@, args, r) && args.len() > 0 ==> (r matches CliAction::Install(v)
            && v@.len() == args.len() && forall|i: int| 0 <= i < args.len() ==> #[trigger] v@[i]@ == args[i]),
        action_for("detail"@, args, r) ==> (r matches CliAction::Detail(v) && v@.len() == args.len()
            && forall|i: int| 0 <= i < args.len() ==> #[trigger] v@[i]@ == args[i]),
        action_for("help"@, args, r) && args.len() > 0 ==> (r matches CliAction::Help(t) && t@
            == args[0]),
        action_for("www"@, args, r) && args.len() > 0 && args[0] == "add"@ ==> (r matches CliAction::WwwAdd(v)
            && v@.len() + 1 == args.len() && forall|i: int| 0 <= i < v@.len() ==> #[trigger] v@[i]@ == args[i + 1]),
        action_for("www"@, args, r) && args.len() > 0 && args[0] == "remove"@ ==> (r matches CliAction::WwwRemove(v)
            && v@.len() + 1 == args.len() && forall|i: int| 0 <= i < v@.len() ==> #[trigger] v@[i]@ == args[i + 1]),
{
    reveal_strlit("system");
    reveal_strlit("list");
    reveal_strlit("uninstall");
    reveal_strlit("update");
    reveal_strlit("search");
    reveal_strlit("detail");
    reveal_strlit("help");
    reveal_strlit("install");
    reveal_strlit("version");
    reveal_strlit("beleave");
    reveal_strlit("www");
    reveal_strlit("server");
    reveal_strlit("test");
    reveal_strlit("add");
    reveal_strlit("remove");
    reveal_strlit("configure");
    reveal_strlit("build");
    reveal_strlit("init");
    assert("system"@.len() == 6 && "system"@[0] == 's' && "system"@[1] == 'y');
    assert("list"@.len() == 4 && "list"@[0] == 'l' && "list"@[1] == 'i');
    assert("uninstall"@.len() == 9 && "uninstall"@[0] == 'u' && "uninstall"@[1] == 'n');
    assert("update"@.len() == 6 && "update"@[0] == 'u' && "update"@[1] == 'p');
    assert("search"@.len() == 6 && "search"@[0] == 's' && "search"@[1] == 'e');
    assert("detail"@.len() == 6 && "detail"@[0] == 'd' && "detail"@[1] == 'e');
    assert("help"@.len() == 4 && "help"@[0] == 'h' && "help"@[1] == 'e');
    assert("install"@.len() == 7 && "install"@[0] == 'i' && "install"@[1] == 'n');
    assert("version"@.len() == 7 && "version"@[0] == 'v' && "version"@[1] == 'e');
    assert("beleave"@.len() == 7 && "beleave"@[0] == 'b' && "beleave"@[1] == 'e');
    assert("www"@.len() == 3 && "www"@[0] == 'w' && "www"@[1] == 'w');
    assert("server"@.len() == 6 && "server"@[0] == 's' && "server"@[1] == 'e');
    assert("test"@.len() == 4 && "test"@[0] == 't' && "test"@[1] == 'e');
    assert("add"@.len() == 3 && "add"@[0] == 'a' && "add"@[1] == 'd');
    assert("remove"@.len() == 6 && "remove"@[0] == 'r' && "remove"@[1] == 'e');
    assert("configure"@.len() == 9 && "configure"@[0] == 'c' && "configure"@[1] == 'o');
    assert("build"@.len() == 5 && "build"@[0] == 'b' && "build"@[1] == 'u');
    assert("init"@.len() == 4 && "init"@[0] == 'i' && "init"@[1] == 'n');
    if let CliAction::Uninstall(v) = r {
        assert forall|i: int| 0 <= i < v@.len() implies #[trigger] v@[i]@ == string_views(v@)[i] by {}
    }
    if let CliAction::Install(v) = r {
        assert forall|i: int| 0 <= i < v@.len() implies #[trigger] v@[i]@ == string_views(v@)[i] by {}
    }
    if let CliAction::Detail(v) = r {
        assert forall|i: int| 0 <= i < v@.len() implies #[trigger] v@[i]@ == string_views(v@)[i] by {}
    }
    if let CliAction::WwwAdd(v) = r {
        if action_for("www"@, args, r) && args.len() > 0 && args[0] == "add"@ {
            assert(string_views(v@) == args.skip(1));
            assert forall|i: int| 0 <= i < v@.len() implies #[trigger] v@[i]@ == args[i + 1] by {
                assert(string_views(v@)[i] == v@[i]@);
                assert(args.skip(1)[i] == args[i + 1]);
            }
        }
    }
    if let CliAction::WwwRemove(v) = r {
        if action_for("www"@, args, r) && args.len() > 0 && args[0] == "remove"@ {
            assert(string_views(v@) == args.skip(1));
            assert forall|i: int| 0 <= i < v@.len() implies #[trigger] v@[i]@ == args[i + 1] by {
                assert(string_views(v@)[i] == v@[i]@);
                assert(args.skip(1)[i] == args[i + 1]);
            }
        }
    }
}

fn is_word(s: &str, w: &str) -> (b: bool)
    ensures
        b == (s@ == w@),
{
    crate::control::same_chars(chars_of(s).as_slice(), chars_of(w).as_slice())
}

/// `v[from..]`, copied.
fn tail_of(v: &Vec<String>, from: usize) -> (r: Vec<String>)
    requires
        from <= v@.len(),
    ensures
        string_views(r@) == string_views(v@).skip(from as int),
{
    let mut r: Vec<String> = Vec::new();
    let mut i = from;
    while i < v.len()
        invariant
            from <= i <= v@.len(),
            string_views(r@) == string_views(v@).subrange(from as int, i as int),
        decreases v@.len() - i,
    {
        let ghost old_r = string_views(r@);
        r.push(v[i].clone());
        proof {
            assert(string_views(r@) =~= old_r.push(v@[i as int]@));
            assert(string_views(v@).subrange(from as int, i + 1) =~= string_views(v@).subrange(
                from as int,
                i as int,
            ).push(v@[i as int]@));
        }
        i += 1;
    }
    assert(string_views(v@).subrange(from as int, i as int) =~= string_views(v@).skip(from as int));
    r
}

/// The action that the command `cmd_name` with the arguments `args` asks
/// for (see `action_for`).
pub fn sub_cmd(cmd_name: &str, args: &Vec<String>) -> (r: CliAction)
    ensures
        action_for(cmd_name@, string_views(args@), r),
{
    let ghost av = string_views(args@);
    proof {
        assert(av.skip(0) =~= av);
    }
    let has = args.len() > 0;
    if is_word(cmd_name, "system") {
        if has {
            if is_word(args[0].as_str(), "configure") {
                CliAction::SystemConfigure
            } else {
                CliAction::Nothing
            }
        } else {
            CliAction::Help("system".to_owned())
        }
    } else if is_word(cmd_name, "list") {
        CliAction::ListInstalled
    } else if is_word(cmd_name, "uninstall") {
        if has {
            CliAction::Uninstall(tail_of(args, 0))
        } else {
            CliAction::Help("uninstall".to_owned())
        }
    } else if is_word(cmd_name, "update") {
        CliAction::UpdateList
    } else if is_word(cmd_name, "search") {
        CliAction::Search
    } else if is_word(cmd_name, "detail") {
        CliAction::Detail(tail_of(args, 0))
    } else if is_word(cmd_name, "help") {
        if has {
            CliAction::Help(args[0].clone())
        } else {
            CliAction::Help("".to_owned())
        }
    } else if is_word(cmd_name, "install") {
        if has {
            CliAction::Install(tail_of(args, 0))
        } else {
            CliAction::Help("install".to_owned())
        }
    } else if is_word(cmd_name, "version") {
        CliAction::Version
    } else if is_word(cmd_name, "beleave") {
        CliAction::Easter
    } else if is_word(cmd_name, "www") {
        if has {
            let sub = args[0].as_str();
            if is_word(sub, "add") {
                CliAction::WwwAdd(tail_of(args, 1))
            } else if is_word(sub, "remove") {
                CliAction::WwwRemove(tail_of(args, 1))
            } else if is_word(sub, "update") {
                CliAction::WwwUpdate
            } else if is_word(sub, "list") {
                CliAction::WwwList
            } else {
                CliAction::Help("www".to_owned())
            }
        } else {
            CliAction::Help("www".to_owned())
        }
    } else if is_word(cmd_name, "server") {
        if has {
            let sub = args[0].as_str();
            if is_word(sub, "build") {
                CliAction::ServerBuild
            } else if is_word(sub, "init") {
                CliAction::ServerInit
            } else {
                CliAction::Help("server".to_owned())
            }
        } else {
            CliAction::Help("server".to_owned())
        }
    } else if is_word(cmd_name, "test") {
        CliAction::Test
    } else {
        CliAction::NotFound(cmd_name.to_owned())
    }
}

/// The action the whole command line `argv` (program name first) asks for:
/// the welcome text without a command, else the command's action with the
/// arguments after it.
pub fn dispatch(argv: &Vec<String>) -> (r: CliAction)
    ensures
        argv@.len() < 2 ==> r is Welcome,
        argv@.len() >= 2 ==> action_for(argv@[1]@, string_views(argv@).skip(2), r),
{
    if argv.len() < 2 {
        CliAction::Welcome
    } else {
        let rest = tail_of(argv, 2);
        sub_cmd(argv[1].as_str(), &rest)
    }
}

} // verus!

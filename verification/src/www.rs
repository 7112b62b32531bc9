//! Package servers ("www") that IPM knows, and the packages they offer.
use crate::control::string_views;
use crate::package::About;
use crate::text::{
    append_chars, char_views, chars_of, split, split_chars, split_once, split_once_chars,
    string_of, trim, trim_chars,
};
use crate::third::apt::repository::AptRepositoryInfo;
use vstd::prelude::*;

verus! {

/// The package servers IPM knows, and when the list last changed.
#[derive(Debug)]
pub struct WwwList {
    pub list: Vec<WwwInfo>,
    pub last_update: String,
}

/// One package server: its name, address and kind (`ipm` or `apt`).
#[derive(Debug)]
pub struct WwwInfo {
    pub name: String,
    pub url: String,
    pub www_type: String,
}

/// The packages that the known servers offer.
#[derive(Debug)]
pub struct WwwPackages {
    pub list: Vec<WwwPackageInfo>,
    pub last_update: String,
}

/// A package a server offers, and where to download it.
#[derive(Debug)]
pub struct WwwPackageInfo {
    pub about: About,
    pub package_type: String,
    pub package_url: String,
}

/// The kinds of package server.
#[derive(Debug, Clone, Copy, PartialEq, Eq, Structural)]
pub enum WwwKind {
    Ipm,
    Apt,
    Unknown,
}

/// The kind a server type name denotes.
pub open spec fn kind_of(t: Seq<char>) -> WwwKind {
    if t == "ipm"@ {
        WwwKind::Ipm
    } else if t == "apt"@ {
        WwwKind::Apt
    } else {
        WwwKind::Unknown
    }
}

pub fn www_kind(www_type: &str) -> (r: WwwKind)
    ensures
        r == kind_of(www_type@),
{
    let t = chars_of(www_type);
    if crate::control::same_chars(t.as_slice(), chars_of("ipm").as_slice()) {
        WwwKind::Ipm
    } else if crate::control::same_chars(t.as_slice(), chars_of("apt").as_slice()) {
        WwwKind::Apt
    } else {
        WwwKind::Unknown
    }
}

/// The address of the index of the IPM server at `url`.
pub open spec fn index_file_address(url: Seq<char>) -> Seq<char> {
    url + "/ipm-server-index.json"@
}

pub fn index_file_url(url: &str) -> (r: String)
    ensures
        r@ == index_file_address(url@),
{
    let mut acc = chars_of(url);
    append_chars(&mut acc, chars_of("/ipm-server-index.json").as_slice());
    string_of(acc.as_slice())
}

/// The download address of the package `id` on the IPM server at `server`.
pub open spec fn package_address(server: Seq<char>, id: Seq<char>) -> Seq<char> {
    server + "/package/"@ + id + ".ipm"@
}

pub fn package_url(server: &str, id: &str) -> (r: String)
    ensures
        r@ == package_address(server@, id@),
{
    let mut acc = chars_of(server);
    append_chars(&mut acc, chars_of("/package/").as_slice());
    append_chars(&mut acc, chars_of(id).as_slice());
    append_chars(&mut acc, chars_of(".ipm").as_slice());
    string_of(acc.as_slice())
}

/// The list entries for the packages `abouts` that the IPM server at
/// `server_url` offers: each package as it is, of type `ipm`, downloaded
/// from `package_url`.
pub fn server_packages(server_url: &str, abouts: Vec<About>) -> (r: Vec<WwwPackageInfo>)
    ensures
        r@.len() == abouts@.len(),
        forall|i: int|
            0 <= i < r@.len() ==> (#[trigger] r@[i]).about == abouts@[i] && r@[i].package_type@
                == "ipm"@ && r@[i].package_url@ == package_address(server_url@, abouts@[i].id@),
{
    let ghost orig = abouts@;
    let mut rest = abouts;
    let mut r: Vec<WwwPackageInfo> = Vec::new();
    proof {
        assert(rest@ =~= orig.skip(0));
    }
    while rest.len() > 0
        invariant
            r@.len() + rest@.len() == orig.len(),
            rest@ == orig.skip(r@.len() as int),
            forall|i: int|
                0 <= i < r@.len() ==> (#[trigger] r@[i]).about == orig[i] && r@[i].package_type@
                    == "ipm"@ && r@[i].package_url@ == package_address(server_url@, orig[i].id@),
        decreases rest@.len(),
    {
        let ghost k = r@.len();
        let about = rest.remove(0);
        proof {
            assert(about == orig[k as int]);
            assert(rest@ =~= orig.skip(k + 1int));
        }
        let url = package_url(server_url, about.id.as_str());
        r.push(WwwPackageInfo { about, package_type: "ipm".to_owned(), package_url: url });
    }
    r
}

/// A listed package, seen as its description, type and address.
pub open spec fn offer_view(p: WwwPackageInfo) -> (About, Seq<char>, Seq<char>) {
    (p.about, p.package_type@, p.package_url@)
}

/// What the IPM server at `url` offers of the packages `abouts`: each of
/// them, of type `ipm`, at its address on the server.
pub open spec fn server_offers(url: Seq<char>, abouts: Seq<About>) -> Seq<(About, Seq<char>, Seq<char>)> {
    abouts.map_values(|a: About| (a, "ipm"@, package_address(url, a.id@)))
}

/// The packages of the servers `l`, in order: the offers of each IPM server
/// whose index `ix` holds; other servers, and servers whose index is
/// missing, offer nothing.
pub open spec fn collected_offers(l: Seq<WwwInfo>, ix: Seq<Option<Vec<About>>>) -> Seq<
    (About, Seq<char>, Seq<char>),
>
    decreases l.len(),
{
    if l.len() == 0 || ix.len() == 0 {
        seq![]
    } else {
        collected_offers(l.drop_last(), ix.drop_last()) + match ix.last() {
            Some(abouts) => if kind_of(l.last().www_type@) == WwwKind::Ipm {
                server_offers(l.last().url@, abouts@)
            } else {
                seq![]
            },
            None => seq![],
        }
    }
}

/// The package list made from the known servers `list` and the indexes
/// fetched from them (`indexes[i]` for `list[i]`; `None` where none was
/// fetched): the packages of every IPM server in the order of the list.
pub fn collect_server_packages(list: &Vec<WwwInfo>, indexes: Vec<Option<Vec<About>>>) -> (r: Vec<
    WwwPackageInfo,
>)
    requires
        indexes@.len() == list@.len(),
    ensures
        r@.map_values(|p: WwwPackageInfo| offer_view(p)) == collected_offers(list@, indexes@),
{
    let ghost ix0 = indexes@;
    let mut rest = indexes;
    let mut r: Vec<WwwPackageInfo> = Vec::new();
    let mut i: usize = 0;
    proof {
        assert(rest@ =~= ix0.skip(0));
        assert(r@.map_values(|p: WwwPackageInfo| offer_view(p)) =~= collected_offers(
            list@.take(0),
            ix0.take(0),
        ));
    }
    while i < list.len()
        invariant
            i <= list@.len() == ix0.len(),
            rest@ == ix0.skip(i as int),
            r@.map_values(|p: WwwPackageInfo| offer_view(p)) == collected_offers(
                list@.take(i as int),
                ix0.take(i as int),
            ),
        decreases list@.len() - i,
    {
        let entry = rest.remove(0);
        proof {
            assert(entry == ix0[i as int]);
            assert(rest@ =~= ix0.skip(i + 1));
            assert(list@.take(i + 1).drop_last() =~= list@.take(i as int));
            assert(ix0.take(i + 1).drop_last() =~= ix0.take(i as int));
            assert(list@.take(i + 1).last() == list@[i as int]);
            assert(ix0.take(i + 1).last() == ix0[i as int]);
        }
        let ghost before = r@.map_values(|p: WwwPackageInfo| offer_view(p));
        match entry {
            Some(abouts) => {
                if www_kind(list[i].www_type.as_str()) == WwwKind::Ipm {
                    let ghost av = abouts@;
                    let offered = server_packages(list[i].url.as_str(), abouts);
                    let ghost ov = offered@.map_values(|p: WwwPackageInfo| offer_view(p));
                    proof {
                        assert(ov =~= server_offers(list@[i as int].url@, av));
                    }
                    let mut more = offered;
                    let mut j: usize = 0;
                    let ghost mv = more@;
                    assert(mv.len() == more.len());
                    while more.len() > 0
                        invariant
                            mv.len() <= usize::MAX,
                            j + more@.len() == mv.len(),
                            more@ == mv.skip(j as int),
                            r@.map_values(|p: WwwPackageInfo| offer_view(p)) == before + mv.take(
                                j as int,
                            ).map_values(|p: WwwPackageInfo| offer_view(p)),
                        decreases more@.len(),
                    {
                        let x = more.remove(0);
                        proof {
                            assert(x == mv[j as int]);
                            assert(more@ =~= mv.skip(j + 1));
                        }
                        let ghost rb = r@.map_values(|p: WwwPackageInfo| offer_view(p));
                        r.push(x);
                        proof {
                            assert(r@.map_values(|p: WwwPackageInfo| offer_view(p)) =~= rb.push(
                                offer_view(x),
                            ));
                            assert(mv.take(j + 1).map_values(|p: WwwPackageInfo| offer_view(p))
                                =~= mv.take(j as int).map_values(|p: WwwPackageInfo| offer_view(p)).push(
                                offer_view(x),
                            ));
                        }
                        j += 1;
                    }
                    proof {
                        assert(mv.take(j as int) =~= mv);
                        assert(mv.map_values(|p: WwwPackageInfo| offer_view(p)) == ov);
                    }
                } else {
                    proof {
                        assert(before + Seq::<(About, Seq<char>, Seq<char>)>::empty() =~= before);
                    }
                }
            },
            None => {
                proof {
                    assert(before + Seq::<(About, Seq<char>, Seq<char>)>::empty() =~= before);
                }
            },
        }
        i += 1;
    }
    proof {
        assert(list@.take(i as int) =~= list@);
        assert(ix0.take(i as int) =~= ix0);
    }
    r
}

/// A problem with one of the options of `www add apt`.
pub enum ArgIssue {
    /// `--key=value` with a key that is not known.
    UnknownArgument(String),
    /// An option without `=`.
    InvalidFormat(String),
}

/// The key and value of an option `key=value`.
pub open spec fn option_parts(arg: Seq<char>) -> Option<(Seq<char>, Seq<char>)> {
    split_once(arg, seq!['='])
}

/// The value of the last option with the key `key`.
pub open spec fn option_value(args: Seq<Seq<char>>, key: Seq<char>) -> Option<Seq<char>>
    decreases args.len(),
{
    if args.len() == 0 {
        None
    } else {
        match option_parts(args.last()) {
            Some((k, v)) => if k == key {
                Some(v)
            } else {
                option_value(args.drop_last(), key)
            },
            None => option_value(args.drop_last(), key),
        }
    }
}

/// The comma-separated items of the option `key`, each trimmed; none when
/// the option is not given.
pub open spec fn option_list(args: Seq<Seq<char>>, key: Seq<char>) -> Seq<Seq<char>> {
    match option_value(args, key) {
        Some(v) => split(v, seq![',']).map_values(|x: Seq<char>| trim(x)),
        None => seq![],
    }
}

/// Whether `k` is one of the keys `www add apt` knows.
pub open spec fn known_key(k: Seq<char>) -> bool {
    k == "--name"@ || k == "--suites"@ || k == "--components"@ || k == "--architectures"@ || k
        == "--options"@
}

/// The problems with the options `args`, in order: the key of each option
/// with an unknown key, each option without `=`.
pub open spec fn option_issues(args: Seq<Seq<char>>) -> Seq<(bool, Seq<char>)>
    decreases args.len(),
{
    if args.len() == 0 {
        seq![]
    } else {
        let prev = option_issues(args.drop_last());
        match option_parts(args.last()) {
            Some((k, v)) => if known_key(k) {
                prev
            } else {
                prev.push((true, k))
            },
            None => prev.push((false, args.last())),
        }
    }
}

/// The problems as (unknown key?, text) pairs.
pub open spec fn issue_views(v: Seq<ArgIssue>) -> Seq<(bool, Seq<char>)> {
    v.map_values(
        |i: ArgIssue|
            match i {
                ArgIssue::UnknownArgument(k) => (true, k@),
                ArgIssue::InvalidFormat(a) => (false, a@),
            },
    )
}

fn trimmed_items(value: &Vec<char>) -> (r: Vec<String>)
    ensures
        string_views(r@) == split(value@, seq![',']).map_values(|x: Seq<char>| trim(x)),
{
    let comma = vec![','];
    proof {
        assert(comma@ =~= seq![',']);
    }
    let parts = split_chars(value.as_slice(), comma.as_slice());
    let ghost pv = char_views(parts@);
    let mut r: Vec<String> = Vec::new();
    let mut i: usize = 0;
    while i < parts.len()
        invariant
            i <= parts@.len(),
            pv == char_views(parts@),
            pv == split(value@, seq![',']),
            string_views(r@) == pv.take(i as int).map_values(|x: Seq<char>| trim(x)),
        decreases parts@.len() - i,
    {
        let item = string_of(trim_chars(parts[i].as_slice()).as_slice());
        let ghost old_r = string_views(r@);
        r.push(item);
        proof {
            assert(pv[i as int] == parts@[i as int]@);
            assert(pv.take(i + 1).map_values(|x: Seq<char>| trim(x)) =~= pv.take(i as int).map_values(
                |x: Seq<char>| trim(x),
            ).push(trim(pv[i as int])));
            assert(string_views(r@) =~= old_r.push(item@));
        }
        i += 1;
    }
    proof {
        assert(pv.take(i as int) =~= pv);
    }
    r
}

/// Reads the options of `www add apt <url> ...`: `--name=`, `--suites=`,
/// `--components=`, `--architectures=` and `--options=`, the lists
/// comma-separated; a later option overrides an earlier one with the same
/// key. Options with an unknown key or without `=` are reported and passed
/// over.
pub fn parse_apt_arguments(url: String, args: &Vec<String>) -> (r: (AptRepositoryInfo, Vec<ArgIssue>))
    ensures
        r.0.url@ == url@,
        r.0.name@ == match option_value(string_views(args@), "--name"@) {
            Some(v) => trim(v),
            None => seq![],
        },
        string_views(r.0.suites@) == option_list(string_views(args@), "--suites"@),
        string_views(r.0.components@) == option_list(string_views(args@), "--components"@),
        string_views(r.0.architectures@) == option_list(string_views(args@), "--architectures"@),
        string_views(r.0.options@) == option_list(string_views(args@), "--options"@),
        r.0.signed_by@ == Seq::<char>::empty(),
        issue_views(r.1@) == option_issues(string_views(args@)),
{
    let ghost av = string_views(args@);
    let eq = vec!['='];
    proof {
        assert(eq@ =~= seq!['=']);
    }
    let mut info = AptRepositoryInfo {
        name: String::new(),
        url,
        suites: Vec::new(),
        components: Vec::new(),
        architectures: Vec::new(),
        signed_by: String::new(),
        options: Vec::new(),
    };
    let mut issues: Vec<ArgIssue> = Vec::new();
    let mut i: usize = 0;
    proof {
        assert(av.take(0) =~= Seq::<Seq<char>>::empty());
        assert(string_views(info.suites@) =~= Seq::<Seq<char>>::empty());
        assert(string_views(info.components@) =~= Seq::<Seq<char>>::empty());
        assert(string_views(info.architectures@) =~= Seq::<Seq<char>>::empty());
        assert(string_views(info.options@) =~= Seq::<Seq<char>>::empty());
        assert(issue_views(issues@) =~= Seq::<(bool, Seq<char>)>::empty());
    }
    while i < args.len()
        invariant
            i <= args@.len(),
            av == string_views(args@),
            eq@ == seq!['='],
            info.url@ == url@,
            info.signed_by@ == Seq::<char>::empty(),
            info.name@ == match option_value(av.take(i as int), "--name"@) {
                Some(v) => trim(v),
                None => seq![],
            },
            string_views(info.suites@) == option_list(av.take(i as int), "--suites"@),
            string_views(info.components@) == option_list(av.take(i as int), "--components"@),
            string_views(info.architectures@) == option_list(av.take(i as int), "--architectures"@),
            string_views(info.options@) == option_list(av.take(i as int), "--options"@),
            issue_views(issues@) == option_issues(av.take(i as int)),
        decreases args@.len() - i,
    {
        let ghost pre = av.take(i as int);
        let ghost cur = av.take(i + 1);
        proof {
            assert(cur.drop_last() =~= pre);
            assert(cur.last() == args@[i as int]@);
            reveal_strlit("--name");
            reveal_strlit("--suites");
            reveal_strlit("--components");
            reveal_strlit("--architectures");
            reveal_strlit("--options");
            assert("--name"@.len() == 6);
            assert("--suites"@.len() == 8);
            assert("--components"@.len() == 12);
            assert("--architectures"@.len() == 15);
            assert("--options"@.len() == 9);
        }
        let arg = chars_of(args[i].as_str());
        match split_once_chars(arg.as_slice(), eq.as_slice()) {
            Some((key, value)) => {
                proof {
                    assert(option_parts(cur.last()) == Some((key@, value@)));
                }
                if crate::control::same_chars(key.as_slice(), chars_of("--name").as_slice()) {
                    info.name = string_of(trim_chars(value.as_slice()).as_slice());
                    proof {
                        assert(string_views(info.suites@) == option_list(cur, "--suites"@));
                    }
                } else if crate::control::same_chars(key.as_slice(), chars_of("--suites").as_slice()) {
                    info.suites = trimmed_items(&value);
                    proof {
                        assert(option_value(cur, "--suites"@) == Some(value@));
                    }
                } else if crate::control::same_chars(key.as_slice(), chars_of("--components").as_slice()) {
                    info.components = trimmed_items(&value);
                    proof {
                        assert(option_value(cur, "--components"@) == Some(value@));
                    }
                } else if crate::control::same_chars(key.as_slice(), chars_of("--architectures").as_slice()) {
                    info.architectures = trimmed_items(&value);
                    proof {
                        assert(string_views(info.suites@) == option_list(cur, "--suites"@));
                    }
                } else if crate::control::same_chars(key.as_slice(), chars_of("--options").as_slice()) {
                    info.options = trimmed_items(&value);
                } else {
                    let ghost old_i = issue_views(issues@);
                    let k = string_of(key.as_slice());
                    issues.push(ArgIssue::UnknownArgument(k));
                    proof {
                        assert(issue_views(issues@) =~= old_i.push((true, key@)));
                        assert(string_views(info.suites@) == option_list(cur, "--suites"@));
                    }
                }
            },
            None => {
                let ghost old_i = issue_views(issues@);
                issues.push(ArgIssue::InvalidFormat(args[i].clone()));
                proof {
                    assert(issue_views(issues@) =~= old_i.push((false, args@[i as int]@)));
                    assert(string_views(info.suites@) == option_list(cur, "--suites"@));
                }
            },
        }
        i += 1;
    }
    proof {
        assert(av.take(i as int) =~= av);
    }
    (info, issues)
}

/// Why an apt repository cannot be added.
#[derive(Debug, Clone, Copy, PartialEq, Eq, Structural)]
pub enum AptRepositoryError {
    MissingName,
    MissingSuites,
    MissingComponents,
    MissingArchitectures,
}

/// Checks that an apt repository has a name, suites, components and
/// architectures; the first that is missing is the error.
pub fn check_apt_repository(info: &AptRepositoryInfo) -> (r: Result<(), AptRepositoryError>)
    ensures
        r == if info.name@.len() == 0 {
            Err(AptRepositoryError::MissingName)
        } else if info.suites@.len() == 0 {
            Err(AptRepositoryError::MissingSuites)
        } else if info.components@.len() == 0 {
            Err(AptRepositoryError::MissingComponents)
        } else if info.architectures@.len() == 0 {
            Err(AptRepositoryError::MissingArchitectures)
        } else {
            Ok(())
        },
{
    if info.name.as_str().is_empty() {
        Err(AptRepositoryError::MissingName)
    } else if info.suites.len() == 0 {
        Err(AptRepositoryError::MissingSuites)
    } else if info.components.len() == 0 {
        Err(AptRepositoryError::MissingComponents)
    } else if info.architectures.len() == 0 {
        Err(AptRepositoryError::MissingArchitectures)
    } else {
        Ok(())
    }
}

} // verus!

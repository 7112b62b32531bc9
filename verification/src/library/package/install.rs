//! Putting the files of an installed package in place.
use super::PackageInfo;
use crate::control::string_views;
use crate::library::system::{join_path, path_join};
use crate::package::order::contains_string;
use vstd::prelude::*;

verus! {

/// How a global file is put in place.
#[derive(Debug, Clone, Copy, PartialEq, Eq, Structural)]
pub enum GlobalFileAction {
    /// A symbolic link to the package's file (`bin`).
    Link,
    /// A copy of the package's file (`data`, `config`).
    Copy,
    /// A file type IPM does not know: nothing is done.
    Unknown,
}

/// The action for a global file of type `file_type`.
pub open spec fn action_of(file_type: Seq<char>) -> GlobalFileAction {
    if file_type == "bin"@ {
        GlobalFileAction::Link
    } else if file_type == "data"@ || file_type == "config"@ {
        GlobalFileAction::Copy
    } else {
        GlobalFileAction::Unknown
    }
}

pub fn global_file_action(file_type: &str) -> (r: GlobalFileAction)
    ensures
        r == action_of(file_type@),
{
    let mut v: Vec<String> = Vec::new();
    v.push("bin".to_owned());
    if contains_string(&v, file_type) {
        proof {
            assert(string_views(v@)[0] == "bin"@);
        }
        return GlobalFileAction::Link;
    }
    let mut w: Vec<String> = Vec::new();
    w.push("data".to_owned());
    w.push("config".to_owned());
    if contains_string(&w, file_type) {
        proof {
            assert(string_views(w@)[0] == "data"@);
            assert(string_views(w@)[1] == "config"@);
        }
        proof {
            assert(string_views(v@)[0] == "bin"@);
        }
        return GlobalFileAction::Copy;
    }
    proof {
        assert(string_views(v@)[0] == "bin"@);
        assert(string_views(w@)[0] == "data"@);
        assert(string_views(w@)[1] == "config"@);
    }
    GlobalFileAction::Unknown
}

/// One global file to put in place.
pub struct GlobalFileStep {
    pub from: String,
    pub to: String,
    pub action: GlobalFileAction,
}

/// The steps for the mappings `ms`, in order: for each place of each
/// mapping, the package file (`from` in `package_path`), the place
/// (`to` from the root) and the action its type calls for.
pub open spec fn global_steps(ms: Seq<super::FileMapping>, package_path: Seq<char>) -> Seq<(Seq<char>, Seq<char>, GlobalFileAction)>
    decreases ms.len(),
{
    if ms.len() == 0 {
        seq![]
    } else {
        global_steps(ms.drop_last(), package_path) + string_views(ms.last().to@).map_values(
            |t: Seq<char>| step_of(ms.last(), package_path, t),
        )
    }
}

/// The step that puts the file of mapping `m` at the place `t`.
pub open spec fn step_of(m: super::FileMapping, package_path: Seq<char>, t: Seq<char>) -> (Seq<char>, Seq<char>, GlobalFileAction) {
    (path_join(package_path, m.from@), path_join(seq!['/'], t), action_of(m.file_type@))
}

pub open spec fn step_views(v: Seq<GlobalFileStep>) -> Seq<(Seq<char>, Seq<char>, GlobalFileAction)> {
    v.map_values(|s: GlobalFileStep| (s.from@, s.to@, s.action))
}

/// The global files of the package `info`, installed at `package_path`.
pub fn global_file_steps(info: &PackageInfo, package_path: &str) -> (r: Vec<GlobalFileStep>)
    ensures
        step_views(r@) == global_steps(info.files.global@, package_path@),
{
    let ms = &info.files.global;
    let mut r: Vec<GlobalFileStep> = Vec::new();
    let mut i: usize = 0;
    proof {
        assert(ms@.take(0) =~= Seq::<super::FileMapping>::empty());
        assert(step_views(r@) =~= global_steps(ms@.take(0), package_path@));
    }
    while i < ms.len()
        invariant
            i <= ms@.len(),
            step_views(r@) == global_steps(ms@.take(i as int), package_path@),
        decreases ms@.len() - i,
    {
        let m = &ms[i];
        let from = join_path(package_path, m.from.as_str());
        let action = global_file_action(m.file_type.as_str());
        let ghost before = step_views(r@);
        let ghost tv = string_views(m.to@);
        let mut k: usize = 0;
        while k < m.to.len()
            invariant
                k <= m.to@.len(),
                tv == string_views(m.to@),
                from@ == path_join(package_path@, m.from@),
                action == action_of(m.file_type@),
                i < ms@.len(),
                m == ms@[i as int],
                step_views(r@) == before + tv.take(k as int).map_values(
                    |t: Seq<char>| step_of(ms@[i as int], package_path@, t),
                ),
            decreases m.to@.len() - k,
        {
            let to = join_path("/", m.to[k].as_str());
            proof {
                reveal_strlit("/");
                assert("/"@ =~= seq!['/']);
                assert(to@ == path_join(seq!['/'], tv[k as int]));
            }
            let from_copy = from.clone();
            let ghost old_r = step_views(r@);
            proof {
                assert(old_r.len() == r@.len());
                assert(tv.take(k as int).map_values(|t: Seq<char>| step_of(ms@[i as int], package_path@, t)).len() == k);
                assert(r@.len() == before.len() + k);
            }
            r.push(GlobalFileStep { from: from_copy, to, action });
            proof {
                assert(r@.len() == before.len() + k + 1);
                assert(step_views(r@)[k + before.len()] == step_of(*m, package_path@, tv[k as int]));
                assert(tv[k as int] == m.to@[k as int]@);
                assert(tv.take(k + 1).map_values(|t: Seq<char>| step_of(ms@[i as int], package_path@, t)) =~= tv.take(k as int).map_values(|t: Seq<char>| step_of(ms@[i as int], package_path@, t)).push(step_of(*m, package_path@, tv[k as int])));
                assert(step_views(r@) =~= old_r.push(step_of(*m, package_path@, tv[k as int])));
            }
            k += 1;
        }
        proof {
            assert(tv.take(k as int) =~= tv);
            assert(ms@.take(i + 1).drop_last() =~= ms@.take(i as int));
            assert(ms@.take(i + 1).last() == ms@[i as int]);
        }
        i += 1;
    }
    proof {
        assert(ms@.take(i as int) =~= ms@);
    }
    r
}

/// One file of a package to put in place when it is installed: the
/// package's file `from`, the place `to`, and whether a symbolic link is made
/// there (`link`) or a copy.
pub struct FileStep {
    pub from: String,
    pub to: String,
    pub link: bool,
}

pub open spec fn file_step_views(v: Seq<FileStep>) -> Seq<(Seq<char>, Seq<char>, bool)> {
    v.map_values(|s: FileStep| (s.from@, s.to@, s.link))
}

/// The links for the global files `ms` of a package at `package_path`: for
/// each place of each mapping, in order, a link from the root's place to the
/// package's file.
pub open spec fn link_steps(ms: Seq<super::FileMapping>, package_path: Seq<char>) -> Seq<
    (Seq<char>, Seq<char>, bool),
>
    decreases ms.len(),
{
    if ms.len() == 0 {
        seq![]
    } else {
        link_steps(ms.drop_last(), package_path) + string_views(ms.last().to@).map_values(
            |t: Seq<char>| (path_join(package_path, ms.last().from@), path_join(seq!['/'], t), true),
        )
    }
}

/// Copies of the file `from` to each place of `tos`, each in every home
/// directory of `homes`, places first.
pub open spec fn home_copies(from: Seq<char>, tos: Seq<Seq<char>>, homes: Seq<Seq<char>>) -> Seq<
    (Seq<char>, Seq<char>, bool),
>
    decreases tos.len(),
{
    if tos.len() == 0 {
        seq![]
    } else {
        home_copies(from, tos.drop_last(), homes) + homes.map_values(
            |h: Seq<char>| (from, path_join(h, tos.last()), false),
        )
    }
}

/// The copies of the local files `ms` of a package at `package_path` into
/// the home directories `homes`, mapping by mapping.
pub open spec fn home_steps(ms: Seq<super::FileMapping>, package_path: Seq<char>, homes: Seq<Seq<char>>) -> Seq<
    (Seq<char>, Seq<char>, bool),
>
    decreases ms.len(),
{
    if ms.len() == 0 {
        seq![]
    } else {
        home_steps(ms.drop_last(), package_path, homes) + home_copies(
            path_join(package_path, ms.last().from@),
            string_views(ms.last().to@),
            homes,
        )
    }
}

fn push_step(r: &mut Vec<FileStep>, from: &String, to: String, link: bool)
    ensures
        file_step_views(final(r)@) == file_step_views(old(r)@).push((from@, to@, link)),
{
    let ghost before = file_step_views(r@);
    r.push(FileStep { from: from.clone(), to, link });
    proof {
        assert(file_step_views(r@) =~= before.push((from@, to@, link)));
    }
}

fn push_links(r: &mut Vec<FileStep>, ms: &Vec<super::FileMapping>, package_path: &str)
    ensures
        file_step_views(final(r)@) == file_step_views(old(r)@) + link_steps(ms@, package_path@),
{
    let ghost r0 = file_step_views(r@);
    let mut i: usize = 0;
    proof {
        assert(ms@.take(0) =~= Seq::<super::FileMapping>::empty());
        assert(r0 + link_steps(ms@.take(0), package_path@) =~= r0);
    }
    while i < ms.len()
        invariant
            i <= ms@.len(),
            file_step_views(r@) == r0 + link_steps(ms@.take(i as int), package_path@),
        decreases ms@.len() - i,
    {
        let m = &ms[i];
        let from = join_path(package_path, m.from.as_str());
        let ghost tv = string_views(m.to@);
        let ghost before = file_step_views(r@);
        let ghost f = |t: Seq<char>| (path_join(package_path@, m.from@), path_join(seq!['/'], t), true);
        let mut k: usize = 0;
        proof {
            assert(before + tv.take(0).map_values(f) =~= before);
        }
        while k < m.to.len()
            invariant
                k <= m.to@.len(),
                tv == string_views(m.to@),
                from@ == path_join(package_path@, m.from@),
                f == (|t: Seq<char>| (path_join(package_path@, m.from@), path_join(seq!['/'], t), true)),
                file_step_views(r@) == before + tv.take(k as int).map_values(f),
            decreases m.to@.len() - k,
        {
            let to = join_path("/", m.to[k].as_str());
            proof {
                reveal_strlit("/");
                assert("/"@ =~= seq!['/']);
                assert(tv[k as int] == m.to@[k as int]@);
            }
            let ghost rb = file_step_views(r@);
            push_step(r, &from, to, true);
            proof {
                assert(tv.take(k + 1).map_values(f) =~= tv.take(k as int).map_values(f).push(
                    f(tv[k as int]),
                ));
                assert(before + tv.take(k + 1).map_values(f) =~= rb.push(f(tv[k as int])));
            }
            k += 1;
        }
        proof {
            assert(tv.take(k as int) =~= tv);
            assert(ms@.take(i + 1).drop_last() =~= ms@.take(i as int));
            assert(ms@.take(i + 1).last() == ms@[i as int]);
            assert(tv.map_values(f) =~= string_views(ms@[i as int].to@).map_values(
                |t: Seq<char>| (path_join(package_path@, ms@[i as int].from@), path_join(seq!['/'], t), true),
            ));
            assert(r0 + link_steps(ms@.take(i + 1), package_path@) =~= r0 + link_steps(
                ms@.take(i as int),
                package_path@,
            ) + tv.map_values(f));
        }
        i += 1;
    }
    proof {
        assert(ms@.take(i as int) =~= ms@);
    }
}

fn push_home_copies(r: &mut Vec<FileStep>, ms: &Vec<super::FileMapping>, package_path: &str, homes: &Vec<String>)
    ensures
        file_step_views(final(r)@) == file_step_views(old(r)@) + home_steps(
            ms@,
            package_path@,
            string_views(homes@),
        ),
{
    let ghost r0 = file_step_views(r@);
    let ghost hv = string_views(homes@);
    let mut i: usize = 0;
    proof {
        assert(ms@.take(0) =~= Seq::<super::FileMapping>::empty());
        assert(r0 + home_steps(ms@.take(0), package_path@, hv) =~= r0);
    }
    while i < ms.len()
        invariant
            i <= ms@.len(),
            hv == string_views(homes@),
            file_step_views(r@) == r0 + home_steps(ms@.take(i as int), package_path@, hv),
        decreases ms@.len() - i,
    {
        let m = &ms[i];
        let from = join_path(package_path, m.from.as_str());
        let ghost tv = string_views(m.to@);
        let ghost before = file_step_views(r@);
        let mut k: usize = 0;
        proof {
            assert(tv.take(0) =~= Seq::<Seq<char>>::empty());
            assert(before + home_copies(from@, tv.take(0), hv) =~= before);
        }
        while k < m.to.len()
            invariant
                k <= m.to@.len(),
                tv == string_views(m.to@),
                hv == string_views(homes@),
                file_step_views(r@) == before + home_copies(from@, tv.take(k as int), hv),
            decreases m.to@.len() - k,
        {
            let ghost mid = file_step_views(r@);
            let ghost g = |h: Seq<char>| (from@, path_join(h, tv[k as int]), false);
            let mut h: usize = 0;
            proof {
                assert(mid + hv.take(0).map_values(g) =~= mid);
            }
            while h < homes.len()
                invariant
                    k < m.to@.len(),
                    h <= homes@.len(),
                    tv == string_views(m.to@),
                    hv == string_views(homes@),
                    g == (|hh: Seq<char>| (from@, path_join(hh, tv[k as int]), false)),
                    file_step_views(r@) == mid + hv.take(h as int).map_values(g),
                decreases homes@.len() - h,
            {
                let to = join_path(homes[h].as_str(), m.to[k].as_str());
                proof {
                    assert(tv[k as int] == m.to@[k as int]@);
                    assert(hv[h as int] == homes@[h as int]@);
                }
                let ghost rb = file_step_views(r@);
                push_step(r, &from, to, false);
                proof {
                    assert(hv.take(h + 1).map_values(g) =~= hv.take(h as int).map_values(g).push(
                        g(hv[h as int]),
                    ));
                    assert(mid + hv.take(h + 1).map_values(g) =~= rb.push(g(hv[h as int])));
                }
                h += 1;
            }
            proof {
                assert(hv.take(h as int) =~= hv);
                assert(tv.take(k + 1).drop_last() =~= tv.take(k as int));
                assert(tv.take(k + 1).last() == tv[k as int]);
                assert(hv.map_values(g) =~= hv.map_values(
                    |hh: Seq<char>| (from@, path_join(hh, tv.take(k + 1).last()), false),
                ));
                assert(before + home_copies(from@, tv.take(k + 1), hv) =~= before + home_copies(
                    from@,
                    tv.take(k as int),
                    hv,
                ) + hv.map_values(g));
            }
            k += 1;
        }
        proof {
            assert(tv.take(k as int) =~= tv);
            assert(ms@.take(i + 1).drop_last() =~= ms@.take(i as int));
            assert(ms@.take(i + 1).last() == ms@[i as int]);
            assert(r0 + home_steps(ms@.take(i + 1), package_path@, hv) =~= r0 + home_steps(
                ms@.take(i as int),
                package_path@,
                hv,
            ) + home_copies(from@, tv, hv));
        }
        i += 1;
    }
    proof {
        assert(ms@.take(i as int) =~= ms@);
    }
}

/// What installing the package `info` at `package_path` puts in place: a
/// link at each place of its global files, then a copy of each of its local
/// files at each of their places in every home directory of `homes`.
pub fn install_steps(info: &PackageInfo, package_path: &str, homes: &Vec<String>) -> (r: Vec<FileStep>)
    ensures
        file_step_views(r@) == link_steps(info.files.global@, package_path@) + home_steps(
            info.files.local@,
            package_path@,
            string_views(homes@),
        ),
{
    let mut r: Vec<FileStep> = Vec::new();
    proof {
        assert(file_step_views(r@) =~= Seq::<(Seq<char>, Seq<char>, bool)>::empty());
    }
    push_links(&mut r, &info.files.global, package_path);
    proof {
        assert(Seq::<(Seq<char>, Seq<char>, bool)>::empty() + link_steps(info.files.global@, package_path@)
            =~= link_steps(info.files.global@, package_path@));
    }
    push_home_copies(&mut r, &info.files.local, package_path, homes);
    r
}

} // verus!

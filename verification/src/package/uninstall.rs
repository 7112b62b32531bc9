//! Uninstalling packages.
use crate::control::string_views;
use crate::library::system::{join_path, path_join};
use crate::package::{FileMapping, PackageInfo};
use vstd::prelude::*;

verus! {

/// What happens to one package named for uninstalling.
pub enum UninstallStep {
    /// It is installed: it is removed.
    Uninstall(String),
    /// No installed package has this id.
    NotFound(String),
}

/// Whether a package of `l` has the id `id`.
pub open spec fn has_package(l: Seq<PackageInfo>, id: Seq<char>) -> bool {
    exists|i: int| 0 <= i < l.len() && (#[trigger] l[i]).about.id@ == id
}

fn find_installed(packages: &Vec<PackageInfo>, id: &String) -> (b: bool)
    ensures
        b == has_package(packages@, id@),
{
    let mut i: usize = 0;
    while i < packages.len()
        invariant
            i <= packages@.len(),
            forall|j: int| 0 <= j < i ==> (#[trigger] packages@[j]).about.id@ != id@,
        decreases packages@.len() - i,
    {
        if packages[i].about.id == *id {
            return true;
        }
        i += 1;
    }
    false
}

/// For each of `args`, in order, whether it is uninstalled (a package of
/// `packages` has that id) or reported as not found; `None` when no package
/// is named.
pub fn uninstall_packages(args: &Vec<String>, packages: &Vec<PackageInfo>) -> (r: Option<Vec<UninstallStep>>)
    ensures
        r is None <==> args@.len() == 0,
        r matches Some(steps) ==> steps@.len() == args@.len() && forall|i: int|
            0 <= i < args@.len() ==> match #[trigger] steps@[i] {
                UninstallStep::Uninstall(s) => s@ == args@[i]@ && has_package(packages@, s@),
                UninstallStep::NotFound(s) => s@ == args@[i]@ && !has_package(packages@, s@),
            },
{
    if args.len() == 0 {
        return None;
    }
    let mut steps: Vec<UninstallStep> = Vec::new();
    let mut i: usize = 0;
    while i < args.len()
        invariant
            i <= args@.len(),
            steps@.len() == i,
            forall|j: int|
                0 <= j < i ==> match #[trigger] steps@[j] {
                    UninstallStep::Uninstall(s) => s@ == args@[j]@ && has_package(packages@, s@),
                    UninstallStep::NotFound(s) => s@ == args@[j]@ && !has_package(packages@, s@),
                },
        decreases args@.len() - i,
    {
        let id = args[i].clone();
        if find_installed(packages, &id) {
            steps.push(UninstallStep::Uninstall(id));
        } else {
            steps.push(UninstallStep::NotFound(id));
        }
        i += 1;
    }
    Some(steps)
}

/// The places, from the root, that the global files of the mappings `ms`
/// were put at, in order.
pub open spec fn global_places(ms: Seq<FileMapping>) -> Seq<Seq<char>>
    decreases ms.len(),
{
    if ms.len() == 0 {
        seq![]
    } else {
        global_places(ms.drop_last()) + string_views(ms.last().to@).map_values(
            |t: Seq<char>| path_join(seq!['/'], t),
        )
    }
}

/// The files to remove, from the root, when `info` is uninstalled: the
/// places of its global files.
pub fn uninstall_targets(info: &PackageInfo) -> (r: Vec<String>)
    ensures
        string_views(r@) == global_places(info.files.global@),
{
    let ms = &info.files.global;
    let mut r: Vec<String> = Vec::new();
    let mut i: usize = 0;
    proof {
        reveal_strlit("/");
        assert("/"@ =~= seq!['/']);
        assert(ms@.take(0) =~= Seq::<FileMapping>::empty());
        assert(string_views(r@) =~= Seq::<Seq<char>>::empty());
    }
    while i < ms.len()
        invariant
            i <= ms@.len(),
            "/"@ == seq!['/'],
            string_views(r@) == global_places(ms@.take(i as int)),
        decreases ms@.len() - i,
    {
        let m = &ms[i];
        let ghost before = string_views(r@);
        let ghost tv = string_views(m.to@);
        let mut k: usize = 0;
        while k < m.to.len()
            invariant
                k <= m.to@.len(),
                tv == string_views(m.to@),
                "/"@ == seq!['/'],
                string_views(r@) == before + tv.take(k as int).map_values(
                    |t: Seq<char>| path_join(seq!['/'], t),
                ),
            decreases m.to@.len() - k,
        {
            let place = join_path("/", m.to[k].as_str());
            let ghost old_r = string_views(r@);
            r.push(place);
            proof {
                assert(tv[k as int] == m.to@[k as int]@);
                assert(tv.take(k + 1).map_values(|t: Seq<char>| path_join(seq!['/'], t)) =~= tv.take(
                    k as int,
                ).map_values(|t: Seq<char>| path_join(seq!['/'], t)).push(
                    path_join(seq!['/'], tv[k as int]),
                ));
                assert(string_views(r@) =~= old_r.push(place@));
            }
            k += 1;
        }
        proof {
            assert(tv.take(k as int) =~= tv);
            assert(ms@.take(i + 1).drop_last() =~= ms@.take(i as int));
            assert(ms@.take(i + 1).last() == ms@[i as int]);
        }
        i += 1;
    }
    proof {
        assert(ms@.take(i as int) =~= ms@);
    }
    r
}

} // verus!

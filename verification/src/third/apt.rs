//! Packages of apt repositories, read into IPM's package descriptions.
pub mod package;
pub mod repository;

use self::package::{AptPackageInfo, DebPackageInfo};
use crate::control::string_views;
use crate::package::{depend_views, About, Author, DependInfo, DependSpec, DependencyType};
use crate::text::{
    char_views, chars_of, copy_range, find_from, find_sub, lemma_find_sub_bounds, split,
    split_chars, string_of, trim, trim_chars,
};
use vstd::prelude::*;

verus! {

/// The package name and version requirement of a dependency written
/// `name (requirement)`: the text before the first `(`, and the text between
/// it and the last character, both trimmed; without a `(`, the whole text
/// and `*`.
pub open spec fn dependency_parts(d: Seq<char>) -> (Seq<char>, Seq<char>) {
    match find_sub(d, seq!['(']) {
        Some(i) => (trim(d.take(i)), trim(d.subrange(i + 1, d.len() - 1))),
        None => (d, seq!['*']),
    }
}

/// Whether `dependency_parts` can read `d` the way the byte slicing it
/// stands for can: after a `(` comes at least one character, and the last
/// character is a single byte.
pub open spec fn dependency_readable(d: Seq<char>) -> bool {
    match find_sub(d, seq!['(']) {
        Some(i) => i + 2 <= d.len() && (d.last() as u32) < 0x80,
        None => true,
    }
}

/// Splits a dependency string such as `package (>= 1.0.0)` into the package
/// name and its version requirement.
pub fn parse_dependency(dep: &str) -> (r: (String, String))
    requires
        dependency_readable(dep@),
    ensures
        (r.0@, r.1@) == dependency_parts(dep@),
{
    let d = chars_of(dep);
    let open = vec!['('];
    proof {
        assert(open@ =~= seq!['(']);
        assert(d@.skip(0) =~= d@);
        lemma_find_sub_bounds(d@, open@);
    }
    match find_from(d.as_slice(), open.as_slice(), 0) {
        Some(start) => {
            let n = d.len();
            let head = copy_range(d.as_slice(), 0, start);
            let inner = copy_range(d.as_slice(), start + 1, n - 1);
            let name = trim_chars(head.as_slice());
            let version = trim_chars(inner.as_slice());
            proof {
                assert(head@ =~= d@.take(start as int));
            }
            (string_of(name.as_slice()), string_of(version.as_slice()))
        },
        None => {
            let star = vec!['*'];
            assert(star@ =~= seq!['*']);
            (string_of(d.as_slice()), string_of(star.as_slice()))
        },
    }
}

/// The dependencies that one entry of a dependency list stands for: each of
/// its `|`-separated alternatives, trimmed and read by `dependency_parts`,
/// with the given type and group number.
pub open spec fn alternative_deps(entry: Seq<char>, t: DependencyType, group: int) -> Seq<DependSpec> {
    split(entry, seq!['|']).map_values(
        |a: Seq<char>|
            DependSpec {
                depend_type: t,
                name: dependency_parts(trim(a)).0,
                version: dependency_parts(trim(a)).1,
                index: Some(group as u32),
            },
    )
}

/// The dependencies of a dependency list: entry `k` (from 0) gives its
/// alternatives, all in group `k + 1`.
pub open spec fn grouped_deps(entries: Seq<Seq<char>>, t: DependencyType) -> Seq<DependSpec>
    decreases entries.len(),
{
    if entries.len() == 0 {
        seq![]
    } else {
        grouped_deps(entries.drop_last(), t) + alternative_deps(entries.last(), t, entries.len() as int)
    }
}

/// Whether every alternative of every entry of the list is readable.
pub open spec fn entries_readable(entries: Seq<Seq<char>>) -> bool {
    forall|k: int, j: int|
        0 <= k < entries.len() && 0 <= j < split(entries[k], seq!['|']).len() ==> dependency_readable(
            trim(#[trigger] split(entries[k], seq!['|'])[j]),
        )
}

/// The dependencies of an apt package: its `Depends` (must), `Suggests`
/// (should), `Recommends` (may), `Conflicts` (cannot conflict) and `Breaks`
/// (cannot break) lists, in that order.
pub open spec fn apt_dependencies(info: AptPackageInfo) -> Seq<DependSpec> {
    grouped_deps(string_views(info.depends@), DependencyType::Must) + grouped_deps(
        string_views(info.suggests@),
        DependencyType::Should,
    ) + grouped_deps(string_views(info.recommended@), DependencyType::May) + grouped_deps(
        string_views(info.conflicts@),
        DependencyType::CannotConflict,
    ) + grouped_deps(string_views(info.breaks@), DependencyType::CannotBreak)
}

/// Whether `AptPackageInfo::to_about` can read every dependency of `info`.
pub open spec fn apt_dependencies_readable(info: AptPackageInfo) -> bool {
    &&& entries_readable(string_views(info.depends@))
    &&& entries_readable(string_views(info.suggests@))
    &&& entries_readable(string_views(info.recommended@))
    &&& entries_readable(string_views(info.conflicts@))
    &&& entries_readable(string_views(info.breaks@))
}

/// Whether each alternative of each entry is readable.
pub fn check_entries_readable(entries: &Vec<String>) -> (b: bool)
    ensures
        b == entries_readable(string_views(entries@)),
{
    let ghost ev = string_views(entries@);
    let bar = vec!['|'];
    let open = vec!['('];
    proof {
        assert(bar@ =~= seq!['|']);
        assert(open@ =~= seq!['(']);
    }
    let mut k: usize = 0;
    while k < entries.len()
        invariant
            k <= entries@.len(),
            ev == string_views(entries@),
            bar@ == seq!['|'],
            open@ == seq!['('],
            forall|kk: int, j: int|
                0 <= kk < k && 0 <= j < split(ev[kk], seq!['|']).len() ==> dependency_readable(
                    trim(#[trigger] split(ev[kk], seq!['|'])[j]),
                ),
        decreases entries@.len() - k,
    {
        let alts = split_chars(chars_of(entries[k].as_str()).as_slice(), bar.as_slice());
        let mut j: usize = 0;
        while j < alts.len()
            invariant
                k < entries@.len(),
                j <= alts@.len(),
                ev == string_views(entries@),
                char_views(alts@) == split(ev[k as int], seq!['|']),
                open@ == seq!['('],
                forall|jj: int|
                    0 <= jj < j ==> dependency_readable(
                        trim(#[trigger] split(ev[k as int], seq!['|'])[jj]),
                    ),
            decreases alts@.len() - j,
        {
            let t = trim_chars(alts[j].as_slice());
            proof {
                assert(alts@[j as int]@ == char_views(alts@)[j as int]);
                assert(t@.skip(0) =~= t@);
                lemma_find_sub_bounds(t@, open@);
            }
            match find_from(t.as_slice(), open.as_slice(), 0) {
                Some(i) => {
                    let n = t.len();
                    if !(n - i >= 2 && (t[n - 1] as u32) < 0x80) {
                        return false;
                    }
                },
                None => {},
            }
            j += 1;
        }
        k += 1;
    }
    true
}

/// Appends the dependencies that the list `entries` stands for.
fn push_grouped(acc: &mut Vec<DependInfo>, entries: &Vec<String>, t: DependencyType)
    requires
        entries@.len() <= u32::MAX,
        entries_readable(string_views(entries@)),
    ensures
        depend_views(final(acc)@) == depend_views(old(acc)@) + grouped_deps(
            string_views(entries@),
            t,
        ),
{
    let ghost ev = string_views(entries@);
    let bar = vec!['|'];
    proof {
        assert(bar@ =~= seq!['|']);
        assert(depend_views(acc@) =~= depend_views(old(acc)@) + grouped_deps(ev.take(0), t));
    }
    let mut k: usize = 0;
    while k < entries.len()
        invariant
            k <= entries@.len() <= u32::MAX,
            ev == string_views(entries@),
            entries_readable(ev),
            bar@ == seq!['|'],
            depend_views(acc@) == depend_views(old(acc)@) + grouped_deps(ev.take(k as int), t),
        decreases entries@.len() - k,
    {
        let group: u32 = (k + 1) as u32;
        let alts = split_chars(chars_of(entries[k].as_str()).as_slice(), bar.as_slice());
        let ghost before = depend_views(acc@);
        let mut j: usize = 0;
        while j < alts.len()
            invariant
                k < entries@.len() <= u32::MAX,
                group == k + 1,
                j <= alts@.len(),
                ev == string_views(entries@),
                entries_readable(ev),
                char_views(alts@) == split(ev[k as int], seq!['|']),
                depend_views(acc@) == before + alternative_deps(ev[k as int], t, k + 1).take(
                    j as int,
                ),
            decreases alts@.len() - j,
        {
            let text = string_of(trim_chars(alts[j].as_slice()).as_slice());
            proof {
                assert(alts@[j as int]@ == split(ev[k as int], seq!['|'])[j as int]);
                assert(dependency_readable(trim(split(ev[k as int], seq!['|'])[j as int])));
            }
            let (name, version) = parse_dependency(text.as_str());
            let ghost old_acc = depend_views(acc@);
            acc.push(DependInfo { depend_type: t, name, version, index: Some(group) });
            proof {
                let alt = alternative_deps(ev[k as int], t, k + 1);
                assert(alt.take(j + 1) =~= alt.take(j as int).push(alt[j as int]));
                assert(depend_views(acc@) =~= old_acc.push(alt[j as int]));
            }
            j += 1;
        }
        proof {
            let alt = alternative_deps(ev[k as int], t, k + 1);
            assert(alt.take(j as int) =~= alt);
            assert(ev.take(k + 1).drop_last() =~= ev.take(k as int));
            assert(ev.take(k + 1).last() == ev[k as int]);
            assert(depend_views(acc@) =~= depend_views(old(acc)@) + grouped_deps(
                ev.take(k + 1),
                t,
            ));
        }
        k += 1;
    }
    proof {
        assert(ev.take(k as int) =~= ev);
    }
}

impl AptPackageInfo {
    /// Whether every dependency entry can be read by `to_about`.
    pub fn dependencies_readable(&self) -> (b: bool)
        ensures
            b == apt_dependencies_readable(*self),
    {
        check_entries_readable(&self.depends) && check_entries_readable(&self.suggests)
            && check_entries_readable(&self.recommended) && check_entries_readable(&self.conflicts)
            && check_entries_readable(&self.breaks)
    }

    /// The IPM description of this apt package: its name serves as name and
    /// id, its maintainer as author name and id, and its dependency lists are
    /// read by `apt_dependencies`; e-mail and license are unknown (empty).
    pub fn to_about(&self) -> (r: About)
        requires
            apt_dependencies_readable(*self),
            self.depends@.len() <= u32::MAX,
            self.suggests@.len() <= u32::MAX,
            self.recommended@.len() <= u32::MAX,
            self.conflicts@.len() <= u32::MAX,
            self.breaks@.len() <= u32::MAX,
        ensures
            r.name@ == self.package@,
            r.id@ == self.package@,
            r.version@ == self.version@,
            r.author.name@ == self.maintainer@,
            r.author.id@ == self.maintainer@,
            r.author.email@ == Seq::<char>::empty(),
            r.description@ == self.description@,
            r.license@ == Seq::<char>::empty(),
            depend_views(r.dependencies@) == apt_dependencies(*self),
            string_views(r.architecture@) == seq![self.architecture@],
            r.size == self.installed_size as usize,
    {
        let mut deps: Vec<DependInfo> = Vec::new();
        proof {
            assert(depend_views(deps@) =~= Seq::<DependSpec>::empty());
        }
        push_grouped(&mut deps, &self.depends, DependencyType::Must);
        push_grouped(&mut deps, &self.suggests, DependencyType::Should);
        push_grouped(&mut deps, &self.recommended, DependencyType::May);
        push_grouped(&mut deps, &self.conflicts, DependencyType::CannotConflict);
        push_grouped(&mut deps, &self.breaks, DependencyType::CannotBreak);
        let mut architecture: Vec<String> = Vec::new();
        architecture.push(self.architecture.clone());
        proof {
            assert(string_views(architecture@) =~= seq![self.architecture@]);
        }
        About {
            name: self.package.clone(),
            id: self.package.clone(),
            version: self.version.clone(),
            author: Author {
                name: self.maintainer.clone(),
                id: self.maintainer.clone(),
                email: String::new(),
            },
            description: self.description.clone(),
            license: String::new(),
            dependencies: deps,
            architecture,
            size: self.installed_size as usize,
        }
    }
}

/// The dependencies of a `.deb` package: each `Depends` entry, read whole by
/// `dependency_parts`, as a must-dependency without a group.
pub open spec fn deb_dependencies(info: DebPackageInfo) -> Seq<DependSpec> {
    string_views(info.depends@).map_values(
        |d: Seq<char>|
            DependSpec {
                depend_type: DependencyType::Must,
                name: dependency_parts(d).0,
                version: dependency_parts(d).1,
                index: None,
            },
    )
}

/// Whether `DebPackageInfo::to_about` can read every dependency of `info`.
pub open spec fn deb_dependencies_readable(info: DebPackageInfo) -> bool {
    forall|k: int| 0 <= k < info.depends@.len() ==> dependency_readable(#[trigger] info.depends@[k]@)
}

impl DebPackageInfo {
    /// Whether every dependency entry can be read by `to_about`.
    pub fn dependencies_readable(&self) -> (b: bool)
        ensures
            b == deb_dependencies_readable(*self),
    {
        let open = vec!['('];
        proof {
            assert(open@ =~= seq!['(']);
        }
        let mut k: usize = 0;
        while k < self.depends.len()
            invariant
                k <= self.depends@.len(),
                open@ == seq!['('],
                forall|kk: int| 0 <= kk < k ==> dependency_readable(#[trigger] self.depends@[kk]@),
            decreases self.depends@.len() - k,
        {
            let t = chars_of(self.depends[k].as_str());
            proof {
                assert(t@.skip(0) =~= t@);
                lemma_find_sub_bounds(t@, open@);
            }
            match find_from(t.as_slice(), open.as_slice(), 0) {
                Some(i) => {
                    let n = t.len();
                    if !(n - i >= 2 && (t[n - 1] as u32) < 0x80) {
                        return false;
                    }
                },
                None => {},
            }
            k += 1;
        }
        true
    }

    /// The IPM description of this `.deb` package (see `deb_dependencies`).
    pub fn to_about(&self) -> (r: About)
        requires
            deb_dependencies_readable(*self),
        ensures
            r.name@ == self.package@,
            r.id@ == self.package@,
            r.version@ == self.version@,
            r.author.name@ == self.maintainer@,
            r.author.id@ == self.maintainer@,
            r.author.email@ == Seq::<char>::empty(),
            r.description@ == self.description@,
            r.license@ == Seq::<char>::empty(),
            depend_views(r.dependencies@) == deb_dependencies(*self),
            string_views(r.architecture@) == seq![self.architecture@],
            r.size == self.installed_size as usize,
    {
        let mut deps: Vec<DependInfo> = Vec::new();
        let mut k: usize = 0;
        while k < self.depends.len()
            invariant
                k <= self.depends@.len(),
                deb_dependencies_readable(*self),
                depend_views(deps@) == deb_dependencies(*self).take(k as int),
            decreases self.depends@.len() - k,
        {
            let (name, version) = parse_dependency(self.depends[k].as_str());
            let ghost old_d = depend_views(deps@);
            deps.push(DependInfo { depend_type: DependencyType::Must, name, version, index: None });
            proof {
                let all = deb_dependencies(*self);
                assert(all.take(k + 1) =~= all.take(k as int).push(all[k as int]));
                assert(depend_views(deps@) =~= old_d.push(all[k as int]));
            }
            k += 1;
        }
        proof {
            assert(deb_dependencies(*self).take(k as int) =~= deb_dependencies(*self));
        }
        let mut architecture: Vec<String> = Vec::new();
        architecture.push(self.architecture.clone());
        proof {
            assert(string_views(architecture@) =~= seq![self.architecture@]);
        }
        About {
            name: self.package.clone(),
            id: self.package.clone(),
            version: self.version.clone(),
            author: Author {
                name: self.maintainer.clone(),
                id: self.maintainer.clone(),
                email: String::new(),
            },
            description: self.description.clone(),
            license: String::new(),
            dependencies: deps,
            architecture,
            size: self.installed_size as usize,
        }
    }
}

} // verus!

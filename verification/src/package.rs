//! Package descriptions: who wrote a package, what it depends on, which
//! files it installs.

pub mod depend;
pub mod detail;
pub mod import;
pub mod install;
pub mod search;
pub mod uninstall;
pub mod order;

use crate::control::{same_chars, string_views};
use crate::text::{chars_of, parse_unsigned, parse_unsigned_chars, split, split_chars};
use vstd::prelude::*;

verus! {

#[derive(Debug)]
pub struct Author {
    pub name: String,
    pub id: String,
    pub email: String,
}

/// How strongly a package relies on another one.
#[derive(Debug, Clone, Copy, PartialEq, Eq, Hash, Structural)]
pub enum DependencyType {
    Must,
    MustPre,
    Should,
    May,
    CannotBreak,
    CannotConflict,
}

/// The name under which a dependency type is written.
pub open spec fn depend_type_text(t: DependencyType) -> Seq<char> {
    match t {
        DependencyType::Must => "must"@,
        DependencyType::MustPre => "must.pre"@,
        DependencyType::Should => "should"@,
        DependencyType::May => "may"@,
        DependencyType::CannotBreak => "cannot.break"@,
        DependencyType::CannotConflict => "cannot.conflict"@,
    }
}

impl DependencyType {
    /// The name under which this type is written (its `Display` text).
    pub fn to_string(&self) -> (r: String)
        ensures
            r@ == depend_type_text(*self),
    {
        match self {
            DependencyType::Must => "must".to_owned(),
            DependencyType::MustPre => "must.pre".to_owned(),
            DependencyType::Should => "should".to_owned(),
            DependencyType::May => "may".to_owned(),
            DependencyType::CannotBreak => "cannot.break".to_owned(),
            DependencyType::CannotConflict => "cannot.conflict".to_owned(),
        }
    }
}

/// One dependency of a package: its kind, the package it names, the version
/// it asks for, and the group of alternatives it belongs to.
#[derive(Debug)]
pub struct DependInfo {
    pub depend_type: DependencyType,
    pub name: String,
    pub version: String,
    pub index: Option<u32>,
}

/// The contents of a `DependInfo`.
pub struct DependSpec {
    pub depend_type: DependencyType,
    pub name: Seq<char>,
    pub version: Seq<char>,
    pub index: Option<u32>,
}

impl View for DependInfo {
    type V = DependSpec;

    open spec fn view(&self) -> DependSpec {
        DependSpec {
            depend_type: self.depend_type,
            name: self.name@,
            version: self.version@,
            index: self.index,
        }
    }
}

/// The contents of a sequence of dependencies.
pub open spec fn depend_views(v: Seq<DependInfo>) -> Seq<DependSpec> {
    v.map_values(|d: DependInfo| d@)
}

impl DependInfo {
    /// A copy of this dependency.
    pub fn copied(&self) -> (r: DependInfo)
        ensures
            r@ == self@,
    {
        DependInfo {
            depend_type: self.depend_type,
            name: self.name.clone(),
            version: self.version.clone(),
            index: self.index,
        }
    }
}

/// A copy of each of the dependencies `v`.
pub fn copy_depends(v: &Vec<DependInfo>) -> (r: Vec<DependInfo>)
    ensures
        depend_views(r@) == depend_views(v@),
{
    let mut r: Vec<DependInfo> = Vec::new();
    let mut i: usize = 0;
    while i < v.len()
        invariant
            i <= v@.len(),
            depend_views(r@) == depend_views(v@).take(i as int),
        decreases v@.len() - i,
    {
        let d = v[i].copied();
        let ghost old_r = depend_views(r@);
        r.push(d);
        proof {
            assert(depend_views(r@) =~= old_r.push(v@[i as int]@));
            assert(depend_views(v@).take(i + 1) =~= depend_views(v@).take(i as int).push(
                v@[i as int]@,
            ));
        }
        i += 1;
    }
    assert(depend_views(v@).take(i as int) =~= depend_views(v@));
    r
}

#[derive(Debug)]
pub struct FileMapping {
    pub from: String,
    pub to: Vec<String>,
    pub file_type: String,
}

#[derive(Debug)]
pub struct Files {
    pub global: Vec<FileMapping>,
    pub local: Vec<FileMapping>,
}

#[derive(Debug)]
pub struct About {
    pub name: String,
    pub id: String,
    pub version: String,
    pub author: Author,
    pub description: String,
    pub license: String,
    pub dependencies: Vec<DependInfo>,
    pub architecture: Vec<String>,
    pub size: usize,
}

#[derive(Debug)]
pub struct PackageInfo {
    pub about: About,
    pub files: Files,
}

// ---------------------------------------------------------------------
// Reading a written dependency type back
// ---------------------------------------------------------------------

/// The dependency type that the base name `base` denotes; an unknown name
/// counts as `Must`.
pub open spec fn type_of_base(base: Seq<char>) -> DependencyType {
    if base == "must"@ {
        DependencyType::Must
    } else if base == "must.pre"@ {
        DependencyType::MustPre
    } else if base == "should"@ {
        DependencyType::Should
    } else if base == "may"@ {
        DependencyType::May
    } else if base == "cannot.break"@ {
        DependencyType::CannotBreak
    } else if base == "cannot.conflict"@ {
        DependencyType::CannotConflict
    } else {
        DependencyType::Must
    }
}

/// The type and group index written as `base[.index.N]`: the text is cut at
/// each `'.'`; the first part names the type; the index is the number in the
/// third part when the second part is `index`.
pub open spec fn dependency_type_of(s: Seq<char>) -> (DependencyType, Option<u32>) {
    let parts = split(s, seq!['.']);
    let index = if parts.len() > 1 && parts[1] == "index"@ && parts.len() > 2 {
        match parse_unsigned(parts[2], 0xffff_ffff) {
            Some(n) => Some(n as u32),
            None => None,
        }
    } else {
        None
    };
    (type_of_base(parts[0]), index)
}

pub fn parse_dependency_type(type_str: &str) -> (r: (DependencyType, Option<u32>))
    ensures
        r == dependency_type_of(type_str@),
{
    let s = chars_of(type_str);
    let dot = vec!['.'];
    let parts = split_chars(s.as_slice(), dot.as_slice());
    proof {
        assert(dot@ =~= seq!['.']);
        crate::text::lemma_split_nonempty(s@, dot@);
        assert(parts@[0]@ == crate::text::char_views(parts@)[0]);
    }
    let base = parts[0].as_slice();
    let index_word = chars_of("index");
    let mut index: Option<u32> = None;
    if parts.len() > 1 && same_chars(parts[1].as_slice(), index_word.as_slice()) && parts.len() > 2 {
        proof {
            assert(parts@[2]@ == crate::text::char_views(parts@)[2]);
        }
        match parse_unsigned_chars(parts[2].as_slice(), 0xffff_ffff) {
            Some(n) => {
                index = Some(n as u32);
            },
            None => {},
        }
    }
    proof {
        if parts.len() > 1 {
            assert(parts@[1]@ == crate::text::char_views(parts@)[1]);
        }
    }
    let depend_type = if same_chars(base, chars_of("must").as_slice()) {
        DependencyType::Must
    } else if same_chars(base, chars_of("must.pre").as_slice()) {
        DependencyType::MustPre
    } else if same_chars(base, chars_of("should").as_slice()) {
        DependencyType::Should
    } else if same_chars(base, chars_of("may").as_slice()) {
        DependencyType::May
    } else if same_chars(base, chars_of("cannot.break").as_slice()) {
        DependencyType::CannotBreak
    } else if same_chars(base, chars_of("cannot.conflict").as_slice()) {
        DependencyType::CannotConflict
    } else {
        DependencyType::Must
    };
    (depend_type, index)
}

/// Text without the character `c` is not cut by it.
proof fn lemma_split_without(s: Seq<char>, c: char)
    requires
        forall|k: int| 0 <= k < s.len() ==> s[k] != c,
    ensures
        split(s, seq![c]) == seq![s],
{
    crate::text::lemma_find_sub_bounds(s, seq![c]);
    if let Some(i) = crate::text::find_sub(s, seq![c]) {
        assert(s.subrange(i, i + 1)[0] == s[i]);
    }
}

/// A dependency type whose name has no `'.'` (`must`, `should`, `may`) is
/// read back from its name as itself, with no group index.
pub proof fn lemma_type_name_read_back(t: DependencyType)
    requires
        t == DependencyType::Must || t == DependencyType::Should || t == DependencyType::May,
    ensures
        dependency_type_of(depend_type_text(t)) == (t, Option::<u32>::None),
{
    reveal_strlit("must");
    reveal_strlit("must.pre");
    reveal_strlit("should");
    reveal_strlit("may");
    reveal_strlit("cannot.break");
    reveal_strlit("cannot.conflict");
    let s = depend_type_text(t);
    lemma_split_without(s, '.');
    assert(split(s, seq!['.'])[0] == s);
}

/// A dependency's version requirement as the package index writes it
/// (`>= 1.0.0`, `= 2.3.4`, `<< 3.0.0`, ...), taken as it stands.
pub fn parse_deb_version(version_str: &str) -> (r: String)
    ensures
        r@ == version_str@,
{
    version_str.to_owned()
}


// ---------------------------------------------------------------------
// Groups of alternative dependencies
// ---------------------------------------------------------------------

/// The place of a group index in the order of groups: no index first, then
/// the indexes from small to large.
pub open spec fn index_rank(o: Option<u32>) -> int {
    match o {
        Some(v) => v as int,
        None => -1,
    }
}

/// The dependencies of `ds` with the group index `key`, in order.
pub open spec fn with_index(ds: Seq<DependSpec>, key: Option<u32>) -> Seq<DependSpec>
    decreases ds.len(),
{
    if ds.len() == 0 {
        seq![]
    } else if ds.last().index == key {
        with_index(ds.drop_last(), key).push(ds.last())
    } else {
        with_index(ds.drop_last(), key)
    }
}

fn index_rank_of(o: Option<u32>) -> (r: i64)
    ensures
        r == index_rank(o),
{
    match o {
        Some(v) => v as i64,
        None => -1,
    }
}

proof fn lemma_with_index_member(ds: Seq<DependSpec>, key: Option<u32>, j: int)
    requires
        0 <= j < ds.len(),
        ds[j].index == key,
    ensures
        with_index(ds, key).len() > 0,
    decreases ds.len(),
{
    if j < ds.len() - 1 {
        lemma_with_index_member(ds.drop_last(), key, j);
    }
}

proof fn lemma_with_index_all(ds: Seq<DependSpec>, key: Option<u32>)
    ensures
        forall|i: int| 0 <= i < with_index(ds, key).len() ==> (#[trigger] with_index(ds, key)[i]).index == key,
    decreases ds.len(),
{
    if ds.len() > 0 {
        lemma_with_index_all(ds.drop_last(), key);
        let prev = with_index(ds.drop_last(), key);
        assert forall|i: int| 0 <= i < with_index(ds, key).len() implies (#[trigger] with_index(ds, key)[i]).index == key by {
            if i < prev.len() {
                assert(with_index(ds, key)[i] == prev[i]);
            }
        }
    }
}

/// The contents of groups of dependencies.
pub open spec fn group_views(r: Seq<Vec<DependInfo>>) -> Seq<Seq<DependSpec>> {
    r.map_values(|v: Vec<DependInfo>| depend_views(v@))
}

/// How often `x` occurs in the groups `g`, all together.
spec fn count_in_groups(g: Seq<Seq<DependSpec>>, x: DependSpec) -> nat
    decreases g.len(),
{
    if g.len() == 0 {
        0
    } else {
        g[0].to_multiset().count(x) + count_in_groups(g.drop_first(), x)
    }
}

proof fn lemma_count_flatten(g: Seq<Seq<DependSpec>>, x: DependSpec)
    ensures
        g.flatten().to_multiset().count(x) == count_in_groups(g, x),
    decreases g.len(),
{
    broadcast use vstd::multiset::group_multiset_axioms;

    if g.len() > 0 {
        lemma_count_flatten(g.drop_first(), x);
        vstd::seq_lib::lemma_multiset_commutative(g[0], g.drop_first().flatten());
        assert(g.flatten() == g[0] + g.drop_first().flatten());
        assert((g[0] + g.drop_first().flatten()).to_multiset() =~= g[0].to_multiset().add(
            g.drop_first().flatten().to_multiset(),
        ));
    } else {
        broadcast use vstd::seq_lib::group_to_multiset_ensures;

        assert(g.flatten() =~= Seq::<DependSpec>::empty());
        assert(!g.flatten().contains(x));
    }
}

proof fn lemma_count_with_index(ds: Seq<DependSpec>, key: Option<u32>, x: DependSpec)
    ensures
        with_index(ds, key).to_multiset().count(x) == if x.index == key {
            ds.to_multiset().count(x)
        } else {
            0
        },
    decreases ds.len(),
{
    broadcast use vstd::seq_lib::group_to_multiset_ensures;

    if ds.len() == 0 {
        assert(!ds.contains(x));
        assert(!with_index(ds, key).contains(x));
    } else {
        let prev = ds.drop_last();
        lemma_count_with_index(prev, key, x);
        assert(ds =~= prev.push(ds.last()));
        assert(ds.to_multiset() == prev.to_multiset().insert(ds.last()));
        if ds.last().index == key {
            assert(with_index(ds, key).to_multiset() == with_index(prev, key).to_multiset().insert(
                ds.last(),
            ));
        }
    }
}

proof fn lemma_count_groups(
    ds: Seq<DependSpec>,
    g: Seq<Seq<DependSpec>>,
    keys: Seq<Option<u32>>,
    x: DependSpec,
)
    requires
        g.len() == keys.len(),
        keys.no_duplicates(),
        forall|i: int| 0 <= i < g.len() ==> #[trigger] g[i] == with_index(ds, keys[i]),
    ensures
        count_in_groups(g, x) == if keys.contains(x.index) {
            ds.to_multiset().count(x)
        } else {
            0
        },
    decreases g.len(),
{
    if g.len() > 0 {
        let rest = keys.drop_first();
        assert(rest.no_duplicates()) by {
            assert forall|i: int, j: int| 0 <= i < rest.len() && 0 <= j < rest.len() && i != j implies rest[i]
                != rest[j] by {
                assert(rest[i] == keys[i + 1] && rest[j] == keys[j + 1]);
            }
        }
        assert forall|i: int| 0 <= i < g.drop_first().len() implies #[trigger] g.drop_first()[i] == with_index(
            ds,
            rest[i],
        ) by {
            assert(g.drop_first()[i] == g[i + 1]);
        }
        lemma_count_groups(ds, g.drop_first(), rest, x);
        lemma_count_with_index(ds, keys[0], x);
        assert(g[0] == with_index(ds, keys[0]));
        if keys[0] == x.index {
            assert(!rest.contains(x.index)) by {
                if rest.contains(x.index) {
                    let j = choose|j: int| 0 <= j < rest.len() && rest[j] == x.index;
                    assert(keys[j + 1] == keys[0]);
                }
            }
            assert(keys.contains(x.index));
        } else {
            assert(keys.contains(x.index) == rest.contains(x.index)) by {
                if keys.contains(x.index) {
                    let j = choose|j: int| 0 <= j < keys.len() && keys[j] == x.index;
                    assert(rest[j - 1] == keys[j]);
                }
                if rest.contains(x.index) {
                    let j = choose|j: int| 0 <= j < rest.len() && rest[j] == x.index;
                    assert(keys[j + 1] == rest[j]);
                }
            }
        }
    }
}

/// Law: groups of dependencies that each hold all the dependencies with
/// one index, with different indexes, one group for every index that
/// occurs (as `group_dependencies_by_index` makes them), hold together
/// exactly the dependencies, each as often as it occurs among them.
pub proof fn lemma_groups_are_a_permutation(ds: Seq<DependSpec>, g: Seq<Seq<DependSpec>>)
    requires
        forall|i: int| 0 <= i < g.len() ==> #[trigger] g[i].len() > 0,
        forall|i: int| 0 <= i < g.len() ==> #[trigger] g[i] == with_index(ds, g[i][0].index),
        forall|i: int, j: int|
            0 <= i < j < g.len() ==> index_rank(#[trigger] g[i][0].index) < index_rank(
                #[trigger] g[j][0].index,
            ),
        forall|k: int|
            0 <= k < ds.len() ==> exists|i: int|
                0 <= i < g.len() && #[trigger] g[i][0].index == (#[trigger] ds[k]).index,
    ensures
        g.flatten().to_multiset() == ds.to_multiset(),
{
    broadcast use vstd::seq_lib::group_to_multiset_ensures;

    let keys = g.map_values(|s: Seq<DependSpec>| s[0].index);
    assert(keys.no_duplicates()) by {
        assert forall|i: int, j: int| 0 <= i < keys.len() && 0 <= j < keys.len() && i != j implies keys[i]
            != keys[j] by {
            if i < j {
                assert(index_rank(g[i][0].index) < index_rank(g[j][0].index));
            } else {
                assert(index_rank(g[j][0].index) < index_rank(g[i][0].index));
            }
        }
    }
    assert forall|x: DependSpec| #[trigger] g.flatten().to_multiset().count(x) == ds.to_multiset().count(x) by {
        lemma_count_flatten(g, x);
        lemma_count_groups(ds, g, keys, x);
        if ds.to_multiset().count(x) > 0 {
            assert(ds.contains(x));
            let k = choose|k: int| 0 <= k < ds.len() && ds[k] == x;
            let i = choose|i: int| 0 <= i < g.len() && #[trigger] g[i][0].index == ds[k].index;
            assert(keys[i] == x.index);
        }
    }
    assert(g.flatten().to_multiset() =~= ds.to_multiset());
}

proof fn lemma_group_results(ds: Seq<DependInfo>, r: Seq<Vec<DependInfo>>)
    requires
        forall|i: int| 0 <= i < r.len() ==> #[trigger] r[i]@.len() > 0,
        forall|i: int|
            0 <= i < r.len() ==> depend_views(#[trigger] r[i]@) == with_index(
                depend_views(ds),
                r[i]@[0].index,
            ),
        forall|i: int, j: int|
            0 <= i < j < r.len() ==> index_rank(#[trigger] r[i]@[0].index) < index_rank(
                #[trigger] r[j]@[0].index,
            ),
        forall|k: int|
            0 <= k < ds.len() ==> exists|i: int|
                0 <= i < r.len() && #[trigger] r[i]@[0].index == (#[trigger] ds[k]).index,
    ensures
        group_views(r).flatten().to_multiset() == depend_views(ds).to_multiset(),
{
    let g = group_views(r);
    let dv = depend_views(ds);
    assert forall|i: int| 0 <= i < g.len() implies #[trigger] g[i].len() > 0 && g[i][0].index == r[i]@[0].index by {
        assert(g[i] == depend_views(r[i]@));
        assert(g[i][0] == r[i]@[0]@);
    }
    assert forall|i: int| 0 <= i < g.len() implies #[trigger] g[i] == with_index(dv, g[i][0].index) by {
        assert(g[i] == depend_views(r[i]@));
        assert(g[i][0] == r[i]@[0]@);
    }
    assert forall|i: int, j: int| 0 <= i < j < g.len() implies index_rank(#[trigger] g[i][0].index) < index_rank(
        #[trigger] g[j][0].index,
    ) by {
        assert(g[i][0] == r[i]@[0]@);
        assert(g[j][0] == r[j]@[0]@);
        assert(g[i] == depend_views(r[i]@));
        assert(g[j] == depend_views(r[j]@));
    }
    assert forall|k: int| 0 <= k < dv.len() implies exists|i: int|
        0 <= i < g.len() && #[trigger] g[i][0].index == (#[trigger] dv[k]).index by {
        assert(dv[k] == ds[k]@);
        let i = choose|i: int| 0 <= i < r.len() && #[trigger] r[i]@[0].index == ds[k].index;
        assert(g[i] == depend_views(r[i]@));
        assert(g[i][0] == r[i]@[0]@);
        assert(g[i][0].index == dv[k].index);
    }
    lemma_groups_are_a_permutation(dv, g);
}

/// The dependencies grouped by their group index: one group per index that
/// occurs, groups in index order (no index first), each group holding the
/// dependencies with that index in the order they came in.
pub fn group_dependencies_by_index(dependencies: Vec<DependInfo>) -> (r: Vec<Vec<DependInfo>>)
    ensures
        forall|i: int| 0 <= i < r@.len() ==> #[trigger] r@[i]@.len() > 0,
        forall|i: int|
            0 <= i < r@.len() ==> depend_views(#[trigger] r@[i]@) == with_index(
                depend_views(dependencies@),
                r@[i]@[0].index,
            ),
        forall|i: int, j: int|
            0 <= i < j < r@.len() ==> index_rank(#[trigger] r@[i]@[0].index) < index_rank(
                #[trigger] r@[j]@[0].index,
            ),
        forall|k: int|
            0 <= k < dependencies@.len() ==> exists|i: int|
                0 <= i < r@.len() && #[trigger] r@[i]@[0].index == (#[trigger] dependencies@[k]).index,
        group_views(r@).flatten().to_multiset() == depend_views(dependencies@).to_multiset(),
{
    let ghost ds = depend_views(dependencies@);
    let mut r: Vec<Vec<DependInfo>> = Vec::new();
    let mut prev: i64 = -2;
    let n = dependencies.len();
    loop
        invariant
            n == dependencies@.len(),
            ds == depend_views(dependencies@),
            -2 <= prev <= u32::MAX,
            forall|i: int| 0 <= i < r@.len() ==> #[trigger] r@[i]@.len() > 0,
            forall|i: int|
                0 <= i < r@.len() ==> depend_views(#[trigger] r@[i]@) == with_index(ds, r@[i]@[0].index),
            forall|i: int, j: int|
                0 <= i < j < r@.len() ==> index_rank(#[trigger] r@[i]@[0].index) < index_rank(
                    #[trigger] r@[j]@[0].index,
                ),
            forall|i: int| 0 <= i < r@.len() ==> index_rank(#[trigger] r@[i]@[0].index) <= prev,
            r@.len() > 0 ==> index_rank(r@[r@.len() - 1]@[0].index) == prev,
            forall|k: int|
                0 <= k < n && index_rank(#[trigger] dependencies@[k].index) <= prev ==> exists|i: int|
                    0 <= i < r@.len() && #[trigger] r@[i]@[0].index == dependencies@[k].index,
        decreases u32::MAX + 2 - prev,
    {
        // the smallest index above `prev`
        let mut best: Option<Option<u32>> = None;
        let mut k: usize = 0;
        while k < n
            invariant
                k <= n == dependencies@.len(),
                -2 <= prev <= u32::MAX,
                match best {
                    Some(b) => index_rank(b) > prev && (exists|m: int| 0 <= m < k && #[trigger] dependencies@[m].index == b)
                        && forall|m: int| 0 <= m < k && index_rank(#[trigger] dependencies@[m].index) > prev ==> index_rank(b) <= index_rank(dependencies@[m].index),
                    None => forall|m: int| 0 <= m < k ==> index_rank(#[trigger] dependencies@[m].index) <= prev,
                },
            decreases n - k,
        {
            let rk = index_rank_of(dependencies[k].index);
            if rk > prev {
                match best {
                    Some(b) => {
                        if rk < index_rank_of(b) {
                            best = Some(dependencies[k].index);
                        }
                    },
                    None => {
                        best = Some(dependencies[k].index);
                    },
                }
            }
            k += 1;
        }
        match best {
            None => {
                proof {
                    lemma_group_results(dependencies@, r@);
                }
                return r;
            },
            Some(key) => {
                let mut group: Vec<DependInfo> = Vec::new();
                let mut m: usize = 0;
                proof {
                    assert(ds.take(0) =~= Seq::<DependSpec>::empty());
                    assert(depend_views(group@) =~= Seq::<DependSpec>::empty());
                }
                while m < n
                    invariant
                        m <= n == dependencies@.len(),
                        ds == depend_views(dependencies@),
                        depend_views(group@) == with_index(ds.take(m as int), key),
                    decreases n - m,
                {
                    proof {
                        assert(ds.take(m + 1).drop_last() =~= ds.take(m as int));
                        assert(ds.take(m + 1).last() == dependencies@[m as int]@);
                    }
                    if dependencies[m].index == key {
                        let d = dependencies[m].copied();
                        let ghost g = depend_views(group@);
                        group.push(d);
                        proof {
                            assert(depend_views(group@) =~= g.push(dependencies@[m as int]@));
                        }
                    }
                    m += 1;
                }
                proof {
                    assert(ds.take(m as int) =~= ds);
                    let w = choose|w: int| 0 <= w < n && #[trigger] dependencies@[w].index == key;
                    assert(ds[w].index == key);
                    lemma_with_index_member(ds, key, w);
                    lemma_with_index_all(ds, key);
                    assert(group@[0]@ == with_index(ds, key)[0]);
                }
                let ghost old_r = r@;
                let new_prev = index_rank_of(key);
                r.push(group);
                proof {
                    assert(r@[r@.len() - 1] == group);
                    assert forall|i: int| 0 <= i < old_r.len() implies r@[i] == old_r[i] by {}
                    assert forall|kk: int|
                        0 <= kk < n && index_rank(#[trigger] dependencies@[kk].index) <= new_prev implies exists|i: int|
                            0 <= i < r@.len() && #[trigger] r@[i]@[0].index == dependencies@[kk].index by {
                        if index_rank(dependencies@[kk].index) <= prev {
                            let i = choose|i: int| 0 <= i < old_r.len() && #[trigger] old_r[i]@[0].index == dependencies@[kk].index;
                            assert(r@[i] == old_r[i]);
                        } else {
                            assert(index_rank(dependencies@[kk].index) == new_prev);
                            assert(dependencies@[kk].index == key) by {
                                match dependencies@[kk].index {
                                    Some(a) => {},
                                    None => {},
                                }
                            }
                            assert(r@[old_r.len() as int]@[0].index == key);
                        }
                    }
                }
                prev = new_prev;
            },
        }
    }
}

/// The packages of `packages` whose name contains `query`, ignoring case:
/// their positions in the list, in order (see `search::search_packages`).
pub fn search_packages(query: &str, packages: &Vec<crate::www::WwwPackageInfo>) -> (r: Vec<usize>)
    ensures
        r@.map_values(|i: usize| i as int) == search::search_hits(packages@, query@),
{
    search::search_packages(query, packages)
}

} // verus!

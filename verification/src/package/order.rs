//! The table of resolved dependencies, and the order in which to install
//! the packages it names.
use crate::control::string_views;
use crate::package::{depend_views, DependInfo, DependSpec};
use crate::text::shifted;
use vstd::prelude::*;
use vstd::set_lib::lemma_len_subset;

verus! {

/// Resolved dependencies: a package name and the dependencies found for it,
/// per entry. A name is looked up at its first entry.
pub struct DependencyTable {
    pub entries: Vec<(String, Vec<DependInfo>)>,
}

/// The contents of a table: names and the dependencies found for them.
pub type TableView = Seq<(Seq<char>, Seq<DependSpec>)>;

impl View for DependencyTable {
    type V = TableView;

    open spec fn view(&self) -> TableView {
        self.entries@.map_values(|e: (String, Vec<DependInfo>)| (e.0@, depend_views(e.1@)))
    }
}

/// The position of the first entry for `n`.
pub open spec fn entry_index(t: TableView, n: Seq<char>) -> Option<int>
    decreases t.len(),
{
    if t.len() == 0 {
        None
    } else if t[0].0 == n {
        Some(0)
    } else {
        shifted(entry_index(t.drop_first(), n), 1)
    }
}

/// The dependencies the table holds for `n`.
pub open spec fn table_get(t: TableView, n: Seq<char>) -> Option<Seq<DependSpec>> {
    match entry_index(t, n) {
        Some(i) => Some(t[i].1),
        None => None,
    }
}

/// Whether the table has an entry for `n`.
pub open spec fn is_key(t: TableView, n: Seq<char>) -> bool {
    entry_index(t, n) is Some
}

/// The names of the packages that `n` depends on, as the table says.
pub open spec fn dep_names(t: TableView, n: Seq<char>) -> Seq<Seq<char>> {
    match table_get(t, n) {
        Some(ds) => ds.map_values(|d: DependSpec| d.name),
        None => seq![],
    }
}

/// `a` depends directly on `b`.
pub open spec fn edge(t: TableView, a: Seq<char>, b: Seq<char>) -> bool {
    dep_names(t, a).contains(b)
}

/// `p` is a chain of direct dependencies.
pub open spec fn is_path(t: TableView, p: Seq<Seq<char>>) -> bool {
    &&& p.len() >= 1
    &&& forall|i: int, j: int|
        0 <= i && j == i + 1 && j < p.len() ==> edge(t, #[trigger] p[i], #[trigger] p[j])
}

/// `a` depends on `b`, directly or not (every package reaches itself).
pub open spec fn reaches(t: TableView, a: Seq<char>, b: Seq<char>) -> bool {
    exists|p: Seq<Seq<char>>| #[trigger] is_path(t, p) && p[0] == a && p.last() == b
}

/// `x` is a package of the table or one that one of them depends on.
pub open spec fn rooted(t: TableView, x: Seq<char>) -> bool {
    exists|k: Seq<char>| #[trigger] is_key(t, k) && reaches(t, k, x)
}

/// No package depends on itself, directly or not.
pub open spec fn acyclic(t: TableView) -> bool {
    forall|a: Seq<char>, b: Seq<char>| #[trigger] edge(t, a, b) ==> !reaches(t, b, a)
}

/// Each dependency of an element of `r` comes before it in `r`, or depends
/// on it in turn (the two lie on a cycle).
pub open spec fn ordered(t: TableView, r: Seq<Seq<char>>) -> bool {
    forall|i: int, k: int|
        0 <= i < r.len() && 0 <= k < dep_names(t, r[i]).len() ==> r.take(i).contains(
            #[trigger] dep_names(t, r[i])[k],
        ) || reaches(t, dep_names(t, r[i])[k], r[i])
}

/// Each dependency of an element of `r` comes before it in `r`.
pub open spec fn topological(t: TableView, r: Seq<Seq<char>>) -> bool {
    forall|i: int, k: int|
        0 <= i < r.len() && 0 <= k < dep_names(t, r[i]).len() ==> r.take(i).contains(
            #[trigger] dep_names(t, r[i])[k],
        )
}

/// Every name the table mentions: its names and their dependencies.
pub open spec fn nodes(t: TableView) -> Seq<Seq<char>>
    decreases t.len(),
{
    if t.len() == 0 {
        seq![]
    } else {
        seq![t[0].0] + t[0].1.map_values(|d: DependSpec| d.name) + nodes(t.drop_first())
    }
}

pub proof fn lemma_entry_index(t: TableView, n: Seq<char>)
    ensures
        entry_index(t, n) matches Some(i) ==> 0 <= i < t.len() && t[i].0 == n && forall|j: int|
            0 <= j < i ==> t[j].0 != n,
        entry_index(t, n) is None ==> forall|j: int| 0 <= j < t.len() ==> t[j].0 != n,
    decreases t.len(),
{
    if t.len() > 0 && t[0].0 != n {
        lemma_entry_index(t.drop_first(), n);
        assert forall|j: int| 0 < j < t.len() implies t[j].0 == t.drop_first()[j - 1].0 by {}
    }
}

pub proof fn lemma_nodes(t: TableView)
    ensures
        forall|j: int| 0 <= j < t.len() ==> nodes(t).contains(#[trigger] t[j].0),
        forall|n: Seq<char>, b: Seq<char>| #[trigger] edge(t, n, b) ==> nodes(t).contains(b),
    decreases t.len(),
{
    if t.len() > 0 {
        let tail = t.drop_first();
        let head = seq![t[0].0] + t[0].1.map_values(|d: DependSpec| d.name);
        lemma_nodes(tail);
        assert(nodes(t) == head + nodes(tail));
        assert(head[0] == t[0].0);
        assert forall|j: int| 0 <= j < t.len() implies nodes(t).contains(#[trigger] t[j].0) by {
            if j == 0 {
                assert(nodes(t)[0] == t[0].0);
            } else {
                assert(t[j] == tail[j - 1]);
                let w = choose|w: int| 0 <= w < nodes(tail).len() && nodes(tail)[w] == tail[j - 1].0;
                assert(nodes(t)[head.len() + w] == nodes(tail)[w]);
            }
        }
        assert forall|n: Seq<char>, b: Seq<char>| #[trigger] edge(t, n, b) implies nodes(
            t,
        ).contains(b) by {
            if t[0].0 == n {
                let w = choose|w: int| 0 <= w < dep_names(t, n).len() && dep_names(t, n)[w] == b;
                assert(nodes(t)[1 + w] == head[1 + w]);
            } else {
                assert(entry_index(t, n) == shifted(entry_index(tail, n), 1));
                lemma_entry_index(tail, n);
                if let Some(i) = entry_index(tail, n) {
                    assert(t[i + 1] == tail[i]);
                }
                assert(dep_names(t, n) == dep_names(tail, n));
                assert(edge(tail, n, b));
                let w = choose|w: int| 0 <= w < nodes(tail).len() && nodes(tail)[w] == b;
                assert(nodes(t)[head.len() + w] == nodes(tail)[w]);
            }
        }
    }
}

pub proof fn lemma_reaches_self(t: TableView, a: Seq<char>)
    ensures
        reaches(t, a, a),
{
    let p = seq![a];
    assert(is_path(t, p));
}

pub proof fn lemma_reaches_step(t: TableView, a: Seq<char>, b: Seq<char>, c: Seq<char>)
    requires
        reaches(t, a, b),
        edge(t, b, c),
    ensures
        reaches(t, a, c),
{
    let p = choose|p: Seq<Seq<char>>| #[trigger] is_path(t, p) && p[0] == a && p.last() == b;
    let q = p.push(c);
    assert forall|i: int, j: int| 0 <= i && j == i + 1 && j < q.len() implies edge(
        t,
        #[trigger] q[i],
        #[trigger] q[j],
    ) by {
        if j < p.len() {
            assert(q[i] == p[i] && q[j] == p[j]);
        }
    }
    assert(is_path(t, q));
}

/// No two elements of `a` and `b` are the same.
pub open spec fn disjoint(a: Seq<Seq<char>>, b: Seq<Seq<char>>) -> bool {
    forall|i: int, j: int| 0 <= i < a.len() && 0 <= j < b.len() ==> a[i] != b[j]
}

/// The dependencies of each element of `r` are in `r` or in `s`.
pub open spec fn closed(t: TableView, r: Seq<Seq<char>>, s: Seq<Seq<char>>) -> bool {
    forall|i: int, k: int|
        0 <= i < r.len() && 0 <= k < dep_names(t, r[i]).len() ==> r.contains(
            #[trigger] dep_names(t, r[i])[k],
        ) || s.contains(dep_names(t, r[i])[k])
}

/// Each dependency of an element of `n` comes before it in `n`, lies in
/// `s`, or depends on it in turn (the two lie on a cycle).
pub open spec fn ordered_after(t: TableView, n: Seq<Seq<char>>, s: Seq<Seq<char>>) -> bool {
    forall|i: int, k: int|
        0 <= i < n.len() && 0 <= k < dep_names(t, n[i]).len() ==> n.take(i).contains(
            #[trigger] dep_names(t, n[i])[k],
        ) || s.contains(dep_names(t, n[i])[k]) || reaches(t, dep_names(t, n[i])[k], n[i])
}

/// No element of `q` is in `v` or in `s`.
pub open spec fn outside(q: Seq<Seq<char>>, v: Seq<Seq<char>>, s: Seq<Seq<char>>) -> bool {
    forall|i: int| 0 <= i < q.len() ==> !v.contains(#[trigger] q[i]) && !s.contains(q[i])
}

/// What a walk from `p` that starts with the visited names `v` and the
/// names being explored `s` appends (to both the visited names and the
/// result): the names `n`, each once and none of them in `v` or `s`,
/// ending with `p`; each reached from `p`; whose dependencies are in `n`,
/// `v` or `s`, and come before them unless they lie in `v` or `s` or on a
/// cycle with them; holding every name that a chain of dependencies from
/// `p` outside `v` and `s` reaches.
pub open spec fn walk_appends(
    t: TableView,
    p: Seq<char>,
    v: Seq<Seq<char>>,
    s: Seq<Seq<char>>,
    n: Seq<Seq<char>>,
) -> bool {
    &&& n.len() > 0
    &&& n.last() == p
    &&& n.no_duplicates()
    &&& disjoint(n, v)
    &&& disjoint(n, s)
    &&& forall|i: int| 0 <= i < n.len() ==> reaches(t, p, #[trigger] n[i])
    &&& closed(t, n, v + s)
    &&& ordered_after(t, n, v + s)
    &&& forall|q: Seq<Seq<char>>|
        #[trigger] is_path(t, q) && q[0] == p && outside(q, v, s) ==> n.contains(q.last())
}

proof fn lemma_concat_contains(a: Seq<Seq<char>>, b: Seq<Seq<char>>)
    ensures
        forall|x: Seq<char>| #[trigger] (a + b).contains(x) <==> a.contains(x) || b.contains(x),
{
    assert forall|x: Seq<char>| #[trigger] (a + b).contains(x) <==> a.contains(x) || b.contains(x) by {
        if (a + b).contains(x) {
            let i = choose|i: int| 0 <= i < (a + b).len() && (a + b)[i] == x;
            if i < a.len() {
                assert(a[i] == x);
            } else {
                assert(b[i - a.len()] == x);
            }
        }
        if a.contains(x) {
            let i = choose|i: int| 0 <= i < a.len() && a[i] == x;
            assert((a + b)[i] == x);
        }
        if b.contains(x) {
            let i = choose|i: int| 0 <= i < b.len() && b[i] == x;
            assert((a + b)[a.len() + i] == x);
        }
    }
}

proof fn lemma_push_contains(a: Seq<Seq<char>>, y: Seq<char>)
    ensures
        forall|x: Seq<char>| #[trigger] a.push(y).contains(x) <==> a.contains(x) || x == y,
{
    lemma_concat_contains(a, seq![y]);
    assert(a.push(y) =~= a + seq![y]);
    assert forall|x: Seq<char>| seq![y].contains(x) <==> x == y by {
        if x == y {
            assert(seq![y][0] == x);
        }
    }
}

/// `b` reaches `c` and `a` depends on `b`: `a` reaches `c`.
proof fn lemma_reaches_prepend(t: TableView, a: Seq<char>, b: Seq<char>, c: Seq<char>)
    requires
        edge(t, a, b),
        reaches(t, b, c),
    ensures
        reaches(t, a, c),
{
    let p = choose|p: Seq<Seq<char>>| #[trigger] is_path(t, p) && p[0] == b && p.last() == c;
    let q = seq![a] + p;
    assert forall|i: int, j: int| 0 <= i && j == i + 1 && j < q.len() implies edge(
        t,
        #[trigger] q[i],
        #[trigger] q[j],
    ) by {
        if i > 0 {
            assert(q[i] == p[i - 1] && q[j] == p[j - 1]);
        }
    }
    assert(is_path(t, q));
    assert(q.last() == c);
}

/// A chain from a name of `n` outside `s` stays in `n` when every
/// dependency of a name of `n` is in `n` or `s`.
proof fn lemma_closed_outside(t: TableView, n: Seq<Seq<char>>, s: Seq<Seq<char>>, q: Seq<Seq<char>>)
    requires
        closed(t, n, s),
        is_path(t, q),
        n.contains(q[0]),
        forall|i: int| 0 <= i < q.len() ==> !s.contains(#[trigger] q[i]),
    ensures
        n.contains(q.last()),
    decreases q.len(),
{
    if q.len() > 1 {
        let r = q.drop_last();
        assert forall|i: int, j: int| 0 <= i && j == i + 1 && j < r.len() implies edge(
            t,
            #[trigger] r[i],
            #[trigger] r[j],
        ) by {
            assert(r[i] == q[i] && r[j] == q[j]);
        }
        assert forall|i: int| 0 <= i < r.len() implies !s.contains(#[trigger] r[i]) by {
            assert(r[i] == q[i]);
        }
        lemma_closed_outside(t, n, s, r);
        let a = q[q.len() - 2];
        let b = q[q.len() - 1];
        assert(edge(t, a, b));
        let w = choose|w: int| 0 <= w < n.len() && n[w] == a;
        let k = choose|k: int| 0 <= k < dep_names(t, a).len() && dep_names(t, a)[k] == b;
        assert(dep_names(t, n[w])[k] == b);
        assert(!s.contains(q[q.len() - 1]));
    }
}

/// Marking more names leaves fewer names of the table unmarked.
proof fn lemma_unmarked_fewer(t: TableView, x: Set<Seq<char>>, y: Set<Seq<char>>, p: Seq<char>)
    requires
        x.subset_of(y),
        y.contains(p),
        !x.contains(p),
        nodes(t).contains(p),
    ensures
        nodes(t).to_set().difference(y).len() < nodes(t).to_set().difference(x).len(),
{
    let a = nodes(t).to_set().difference(x);
    let b = nodes(t).to_set().difference(y);
    vstd::seq_lib::seq_to_set_is_finite(nodes(t));
    lemma_len_subset(a, nodes(t).to_set());
    assert(b.subset_of(a.remove(p)));
    assert(a.contains(p));
    lemma_len_subset(b, a.remove(p));
}

/// The names of `a + b` as a set.
proof fn lemma_concat_set(a: Seq<Seq<char>>, b: Seq<Seq<char>>)
    ensures
        (a + b).to_set() == a.to_set().union(b.to_set()),
{
    lemma_concat_contains(a, b);
    assert((a + b).to_set() =~= a.to_set().union(b.to_set()));
}

/// Whether `v` holds the text `s`.
pub fn contains_string(v: &Vec<String>, s: &str) -> (b: bool)
    ensures
        b == string_views(v@).contains(s@),
{
    let owned = s.to_owned();
    let mut i: usize = 0;
    while i < v.len()
        invariant
            i <= v@.len(),
            owned@ == s@,
            forall|j: int| 0 <= j < i ==> v@[j]@ != s@,
        decreases v@.len() - i,
    {
        if v[i] == owned {
            assert(string_views(v@)[i as int] == s@);
            return true;
        }
        i += 1;
    }
    assert forall|j: int| 0 <= j < string_views(v@).len() implies string_views(v@)[j] != s@ by {
        assert(string_views(v@)[j] == v@[j]@);
    }
    false
}

impl DependencyTable {
    /// An empty table.
    pub fn new() -> (r: DependencyTable)
        ensures
            r@ == Seq::<(Seq<char>, Seq<DependSpec>)>::empty(),
    {
        let r = DependencyTable { entries: Vec::new() };
        assert(r@ =~= Seq::<(Seq<char>, Seq<DependSpec>)>::empty());
        r
    }

    /// The dependencies recorded for `name`.
    pub fn get(&self, name: &str) -> (r: Option<&Vec<DependInfo>>)
        ensures
            match r {
                Some(d) => table_get(self@, name@) == Some(depend_views(d@)),
                None => table_get(self@, name@) is None,
            },
    {
        let owned = name.to_owned();
        let ghost t = self@;
        let mut i: usize = 0;
        while i < self.entries.len()
            invariant
                i <= self.entries@.len(),
                t == self@,
                owned@ == name@,
                forall|j: int| 0 <= j < i ==> t[j].0 != name@,
            decreases self.entries@.len() - i,
        {
            if self.entries[i].0 == owned {
                proof {
                    lemma_entry_index(t, name@);
                    assert(t[i as int].0 == name@);
                }
                return Some(&self.entries[i].1);
            }
            i += 1;
        }
        proof {
            lemma_entry_index(t, name@);
        }
        None
    }

    /// Records `deps` for `name`, in place of what was recorded for it.
    pub fn insert(&mut self, name: String, deps: Vec<DependInfo>)
        ensures
            forall|x: Seq<char>|
                #[trigger] table_get(final(self)@, x) == if x == name@ {
                    Some(depend_views(deps@))
                } else {
                    table_get(old(self)@, x)
                },
    {
        let ghost t = self@;
        let ghost nv = name@;
        let ghost dv = depend_views(deps@);
        let mut i: usize = 0;
        while i < self.entries.len()
            invariant
                i <= self.entries@.len(),
                t == self@,
                t == old(self)@,
                nv == name@,
                dv == depend_views(deps@),
                forall|j: int| 0 <= j < i ==> t[j].0 != nv,
            decreases self.entries@.len() - i,
        {
            proof {
                assert(t[i as int].0 == self.entries@[i as int].0@);
            }
            if self.entries[i].0 == name {
                let ghost en = self.entries@;
                let ghost pair = (name, deps);
                self.entries.set(i, (name, deps));
                proof {
                    let t2 = self@;
                    assert(self.entries@ == en.update(i as int, pair));
                    assert(pair.0@ == nv && depend_views(pair.1@) == dv);
                    assert forall|j: int| 0 <= j < t2.len() implies t2[j] == t.update(
                        i as int,
                        (nv, dv),
                    )[j] by {
                        if j == i {
                            assert(self.entries@[j] == pair);
                        } else {
                            assert(self.entries@[j] == en[j]);
                        }
                    }
                    assert(t2 =~= t.update(i as int, (nv, dv)));
                    lemma_entry_index(t, nv);
                    assert forall|x: Seq<char>| #[trigger]
                        table_get(t2, x) == if x == nv {
                            Some(dv)
                        } else {
                            table_get(t, x)
                        } by {
                        lemma_same_keys(t, t2, x);
                        lemma_entry_index(t, x);
                    }
                }
                return;
            }
            i += 1;
        }
        self.entries.push((name, deps));
        proof {
            let t2 = self@;
            assert(t2 =~= t.push((nv, dv)));
            assert forall|x: Seq<char>| #[trigger]
                table_get(t2, x) == if x == nv {
                    Some(dv)
                } else {
                    table_get(t, x)
                } by {
                lemma_entry_index_push(t, (nv, dv), x);
                lemma_entry_index(t, x);
                lemma_entry_index(t2, x);
            }
        }
    }
}

proof fn lemma_same_keys(t: TableView, t2: TableView, x: Seq<char>)
    requires
        t.len() == t2.len(),
        forall|j: int| 0 <= j < t.len() ==> t[j].0 == t2[j].0,
    ensures
        entry_index(t, x) == entry_index(t2, x),
    decreases t.len(),
{
    if t.len() > 0 {
        lemma_same_keys(t.drop_first(), t2.drop_first(), x);
    }
}

proof fn lemma_entry_index_push(t: TableView, e: (Seq<char>, Seq<DependSpec>), x: Seq<char>)
    ensures
        entry_index(t.push(e), x) == match entry_index(t, x) {
            Some(i) => Some(i),
            None => if e.0 == x {
                Some(t.len() as int)
            } else {
                None
            },
        },
    decreases t.len(),
{
    assert(t.push(e)[0] == if t.len() > 0 {
        t[0]
    } else {
        e
    });
    if t.len() > 0 {
        assert(t.push(e).drop_first() =~= t.drop_first().push(e));
        lemma_entry_index_push(t.drop_first(), e, x);
    } else {
        assert(t.push(e).drop_first() =~= Seq::<(Seq<char>, Seq<DependSpec>)>::empty());
        assert(entry_index(Seq::<(Seq<char>, Seq<DependSpec>)>::empty(), x) is None);
    }
}

/// Depth-first walk from `package`: when `package` is neither visited nor
/// being explored (in `temp`), appends to `result` and to `visited` the
/// packages it reaches that are neither, each after the packages it depends
/// on and `package` last (see `walk_appends`); a dependency found in `temp`
/// closes a cycle and is passed over. Otherwise nothing changes.
pub fn topological_sort(
    package: &str,
    dependencies: &DependencyTable,
    visited: &mut Vec<String>,
    temp: &mut Vec<String>,
    result: &mut Vec<String>,
)
    ensures
        string_views(final(temp)@) == string_views(old(temp)@),
        string_views(old(visited)@).contains(package@) || string_views(old(temp)@).contains(
            package@,
        ) ==> string_views(final(visited)@) == string_views(old(visited)@) && string_views(
            final(result)@,
        ) == string_views(old(result)@),
        !(string_views(old(visited)@).contains(package@) || string_views(old(temp)@).contains(
            package@,
        )) ==> {
            let n = string_views(final(result)@).skip(old(result)@.len() as int);
            &&& final(result)@.len() >= old(result)@.len()
            &&& string_views(final(result)@) == string_views(old(result)@) + n
            &&& string_views(final(visited)@) == string_views(old(visited)@) + n
            &&& walk_appends(
                dependencies@,
                package@,
                string_views(old(visited)@),
                string_views(old(temp)@),
                n,
            )
        },
    decreases nodes(dependencies@).to_set().difference(
        string_views(old(visited)@).to_set().union(string_views(old(temp)@).to_set()),
    ).len(),
{
    let ghost t = dependencies@;
    let ghost p = package@;
    let ghost v0 = string_views(visited@);
    let ghost s0 = string_views(temp@);
    let ghost r0 = string_views(result@);
    if contains_string(temp, package) {
        return;
    }
    if contains_string(visited, package) {
        return;
    }
    temp.push(package.to_owned());
    let ghost s1 = s0.push(p);
    proof {
        assert(string_views(temp@) =~= s1);
        lemma_push_contains(s0, p);
    }
    let ghost dn = dep_names(t, p);
    let ghost mut m: Seq<Seq<char>> = Seq::empty();
    proof {
        assert(string_views(result@) =~= r0 + m);
        assert(string_views(visited@) =~= v0 + m);
        assert(m.no_duplicates());
    }
    let found = dependencies.get(package);
    match found {
        Some(deps) => {
            proof {
                lemma_entry_index(t, p);
                lemma_nodes(t);
                let i = entry_index(t, p)->0;
                assert(nodes(t).contains(t[i].0));
                assert(s1.contains(p));
                assert(v0.to_set().union(s0.to_set()).subset_of(v0.to_set().union(s1.to_set())));
                assert(v0.to_set().union(s1.to_set()).contains(p));
                lemma_unmarked_fewer(
                    t,
                    v0.to_set().union(s0.to_set()),
                    v0.to_set().union(s1.to_set()),
                    p,
                );
            }
            let mut k: usize = 0;
            while k < deps.len()
                invariant
                    t == dependencies@,
                    p == package@,
                    v0 == string_views(old(visited)@),
                    s0 == string_views(old(temp)@),
                    nodes(t).contains(p),
                    !v0.contains(p),
                    !s0.contains(p),
                    s1 == s0.push(p),
                    forall|x: Seq<char>| #[trigger] s1.contains(x) <==> s0.contains(x) || x == p,
                    dn == dep_names(t, p),
                    dn.len() == deps@.len(),
                    forall|j: int| 0 <= j < deps@.len() ==> #[trigger] dn[j] == deps@[j].name@,
                    k <= deps@.len(),
                    string_views(temp@) == s1,
                    string_views(result@) == r0 + m,
                    string_views(visited@) == v0 + m,
                    m.no_duplicates(),
                    disjoint(m, v0),
                    disjoint(m, s1),
                    forall|i: int| 0 <= i < m.len() ==> reaches(t, p, #[trigger] m[i]),
                    closed(t, m, v0 + s1),
                    ordered_after(t, m, v0 + s1),
                    forall|j: int|
                        0 <= j < k ==> m.contains(#[trigger] dn[j]) || v0.contains(dn[j])
                            || s1.contains(dn[j]),
                    nodes(t).to_set().difference(v0.to_set().union(s1.to_set())).len()
                        < nodes(t).to_set().difference(v0.to_set().union(s0.to_set())).len(),
                decreases deps@.len() - k,
            {
                let ghost vb = string_views(visited@);
                let ghost rb = string_views(result@);
                let ghost y = dn[k as int];
                proof {
                    lemma_concat_set(v0, m);
                    assert(v0.to_set().union(s1.to_set()).subset_of(vb.to_set().union(s1.to_set())));
                    vstd::seq_lib::seq_to_set_is_finite(nodes(t));
                    assert(nodes(t).to_set().difference(vb.to_set().union(s1.to_set())).subset_of(
                        nodes(t).to_set().difference(v0.to_set().union(s1.to_set())),
                    ));
                    lemma_len_subset(
                        nodes(t).to_set().difference(vb.to_set().union(s1.to_set())),
                        nodes(t).to_set().difference(v0.to_set().union(s1.to_set())),
                    );
                    assert(edge(t, p, y));
                }
                topological_sort(deps[k].name.as_str(), dependencies, visited, temp, result);
                proof {
                    lemma_concat_contains(v0, m);
                    lemma_concat_contains(v0, s1);
                    if vb.contains(y) || s1.contains(y) {
                        assert(string_views(visited@) == vb);
                        assert(string_views(result@) == rb);
                    } else {
                        let nj = string_views(result@).skip(rb.len() as int);
                        let m2 = m + nj;
                        lemma_concat_contains(m, nj);
                        lemma_concat_contains(vb, s1);
                        assert(string_views(result@) =~= r0 + m2);
                        assert(string_views(visited@) =~= v0 + m2);
                        assert(disjoint(m, nj)) by {
                            assert forall|i: int, j: int| 0 <= i < m.len() && 0 <= j < nj.len() implies m[i]
                                != nj[j] by {
                                assert(vb[v0.len() + i] == m[i]);
                            }
                        }
                        vstd::seq_lib::lemma_no_dup_in_concat(m, nj);
                        assert(disjoint(m2, v0)) by {
                            assert forall|i: int, j: int| 0 <= i < m2.len() && 0 <= j < v0.len() implies m2[i]
                                != v0[j] by {
                                if i < m.len() {
                                    assert(m2[i] == m[i]);
                                } else {
                                    assert(m2[i] == nj[i - m.len()]);
                                    assert(vb[j] == v0[j]);
                                }
                            }
                        }
                        assert(disjoint(m2, s1)) by {
                            assert forall|i: int, j: int| 0 <= i < m2.len() && 0 <= j < s1.len() implies m2[i]
                                != s1[j] by {
                                if i < m.len() {
                                    assert(m2[i] == m[i]);
                                } else {
                                    assert(m2[i] == nj[i - m.len()]);
                                }
                            }
                        }
                        assert forall|i: int| 0 <= i < m2.len() implies reaches(t, p, #[trigger] m2[i]) by {
                            if i < m.len() {
                                assert(m2[i] == m[i]);
                            } else {
                                assert(m2[i] == nj[i - m.len()]);
                                assert(reaches(t, y, nj[i - m.len()]));
                                lemma_reaches_prepend(t, p, y, nj[i - m.len()]);
                            }
                        }
                        assert(closed(t, m2, v0 + s1)) by {
                            assert forall|i: int, kk: int|
                                0 <= i < m2.len() && 0 <= kk < dep_names(t, m2[i]).len() implies m2.contains(
                                #[trigger] dep_names(t, m2[i])[kk],
                            ) || (v0 + s1).contains(dep_names(t, m2[i])[kk]) by {
                                let z = dep_names(t, m2[i])[kk];
                                if i < m.len() {
                                    assert(m2[i] == m[i]);
                                    assert(m.contains(dep_names(t, m[i])[kk]) || (v0 + s1).contains(
                                        dep_names(t, m[i])[kk],
                                    ));
                                } else {
                                    let ii = i - m.len();
                                    assert(m2[i] == nj[ii]);
                                    assert(nj.contains(dep_names(t, nj[ii])[kk]) || (vb + s1).contains(
                                        dep_names(t, nj[ii])[kk],
                                    ));
                                }
                            }
                        }
                        assert(ordered_after(t, m2, v0 + s1)) by {
                            assert forall|i: int, kk: int|
                                0 <= i < m2.len() && 0 <= kk < dep_names(t, m2[i]).len() implies m2.take(
                                i,
                            ).contains(#[trigger] dep_names(t, m2[i])[kk]) || (v0 + s1).contains(
                                dep_names(t, m2[i])[kk],
                            ) || reaches(t, dep_names(t, m2[i])[kk], m2[i]) by {
                                let z = dep_names(t, m2[i])[kk];
                                if i < m.len() {
                                    assert(m2[i] == m[i]);
                                    assert(m2.take(i) =~= m.take(i));
                                    assert(m.take(i).contains(dep_names(t, m[i])[kk]) || (v0
                                        + s1).contains(dep_names(t, m[i])[kk]) || reaches(
                                        t,
                                        dep_names(t, m[i])[kk],
                                        m[i],
                                    ));
                                } else {
                                    let ii = i - m.len();
                                    assert(m2[i] == nj[ii]);
                                    assert(m2.take(i) =~= m + nj.take(ii));
                                    lemma_concat_contains(m, nj.take(ii));
                                    assert(nj.take(ii).contains(dep_names(t, nj[ii])[kk]) || (vb
                                        + s1).contains(dep_names(t, nj[ii])[kk]) || reaches(
                                        t,
                                        dep_names(t, nj[ii])[kk],
                                        nj[ii],
                                    ));
                                }
                            }
                        }
                        assert(nj.contains(y)) by {
                            assert(nj[nj.len() - 1] == y);
                        }
                        m = m2;
                    }
                    assert forall|j: int| 0 <= j < k + 1 implies m.contains(#[trigger] dn[j]) || v0.contains(
                        dn[j],
                    ) || s1.contains(dn[j]) by {
                        lemma_concat_contains(v0, m);
                    }
                }
                k += 1;
            }
        },
        None => {
            proof {
                assert(dn.len() == 0);
            }
        },
    }
    let ghost tp = temp@;
    temp.pop();
    proof {
        assert(temp@ =~= tp.drop_last());
        assert(string_views(temp@) =~= s0) by {
            assert forall|j: int| 0 <= j < s0.len() implies string_views(temp@)[j] == s0[j] by {
                assert(string_views(tp)[j] == s1[j]);
            }
        }
    }
    let ghost vl = string_views(visited@);
    let ghost rl = string_views(result@);
    visited.push(package.to_owned());
    result.push(package.to_owned());
    proof {
        assert(string_views(visited@) =~= vl.push(p));
        assert(string_views(result@) =~= rl.push(p));
        assert(rl == r0 + m);
        assert(vl == v0 + m);
        lemma_push_contains(s0, p);
        let n = m.push(p);
        lemma_push_contains(m, p);
        lemma_concat_contains(v0, s0);
        lemma_concat_contains(v0, s1);
        assert(string_views(result@) =~= r0 + n);
        assert(string_views(visited@) =~= v0 + n);
        assert(string_views(result@).skip(r0.len() as int) =~= n);
        assert(!m.contains(p)) by {
            if m.contains(p) {
                let w = choose|w: int| 0 <= w < m.len() && m[w] == p;
                assert(s1[s0.len() as int] == p);
            }
        }
        assert(n.no_duplicates()) by {
            assert forall|i: int, j: int| 0 <= i < n.len() && 0 <= j < n.len() && i != j implies n[i]
                != n[j] by {
                if i < m.len() && j < m.len() {
                    assert(n[i] == m[i] && n[j] == m[j]);
                } else if i < m.len() {
                    assert(n[i] == m[i]);
                } else if j < m.len() {
                    assert(n[j] == m[j]);
                }
            }
        }
        assert(disjoint(n, v0)) by {
            assert forall|i: int, j: int| 0 <= i < n.len() && 0 <= j < v0.len() implies n[i] != v0[j] by {
                if i < m.len() {
                    assert(n[i] == m[i]);
                }
            }
        }
        assert(disjoint(n, s0)) by {
            assert forall|i: int, j: int| 0 <= i < n.len() && 0 <= j < s0.len() implies n[i] != s0[j] by {
                if i < m.len() {
                    assert(n[i] == m[i]);
                    assert(s1[j] == s0[j]);
                }
            }
        }
        lemma_reaches_self(t, p);
        assert forall|i: int| 0 <= i < n.len() implies reaches(t, p, #[trigger] n[i]) by {
            if i < m.len() {
                assert(n[i] == m[i]);
            }
        }
        assert(closed(t, n, v0 + s0)) by {
            assert forall|i: int, kk: int|
                0 <= i < n.len() && 0 <= kk < dep_names(t, n[i]).len() implies n.contains(
                #[trigger] dep_names(t, n[i])[kk],
            ) || (v0 + s0).contains(dep_names(t, n[i])[kk]) by {
                if i < m.len() {
                    assert(n[i] == m[i]);
                    assert(m.contains(dep_names(t, m[i])[kk]) || (v0 + s1).contains(
                        dep_names(t, m[i])[kk],
                    ));
                } else {
                    assert(n[i] == p);
                    assert(m.contains(dn[kk]) || v0.contains(dn[kk]) || s1.contains(dn[kk]));
                }
            }
        }
        assert(ordered_after(t, n, v0 + s0)) by {
            assert forall|i: int, kk: int|
                0 <= i < n.len() && 0 <= kk < dep_names(t, n[i]).len() implies n.take(i).contains(
                #[trigger] dep_names(t, n[i])[kk],
            ) || (v0 + s0).contains(dep_names(t, n[i])[kk]) || reaches(
                t,
                dep_names(t, n[i])[kk],
                n[i],
            ) by {
                let z = dep_names(t, n[i])[kk];
                if i < m.len() {
                    assert(n[i] == m[i]);
                    assert(n.take(i) =~= m.take(i));
                    assert(m.take(i).contains(dep_names(t, m[i])[kk]) || (v0 + s1).contains(
                        dep_names(t, m[i])[kk],
                    ) || reaches(t, dep_names(t, m[i])[kk], m[i]));
                    if z == p {
                        assert(reaches(t, p, m[i]));
                    }
                } else {
                    assert(n[i] == p);
                    assert(n.take(i) =~= m);
                    assert(m.contains(dn[kk]) || v0.contains(dn[kk]) || s1.contains(dn[kk]));
                }
            }
        }
        assert forall|q: Seq<Seq<char>>| #[trigger] is_path(t, q) && q[0] == p && outside(q, v0, s0) implies n.contains(
            q.last(),
        ) by {
            assert forall|i: int| 0 <= i < q.len() implies !(v0 + s0).contains(#[trigger] q[i]) by {}
            assert(n.contains(q[0])) by {
                assert(n[n.len() - 1] == p);
            }
            lemma_closed_outside(t, n, v0 + s0, q);
        }
    }
}


proof fn lemma_closed_path(t: TableView, r: Seq<Seq<char>>, p: Seq<Seq<char>>)
    requires
        closed(t, r, Seq::<Seq<char>>::empty()),
        is_path(t, p),
        r.contains(p[0]),
    ensures
        r.contains(p.last()),
    decreases p.len(),
{
    if p.len() > 1 {
        let q = p.drop_last();
        assert forall|i: int, j: int| 0 <= i && j == i + 1 && j < q.len() implies edge(
            t,
            #[trigger] q[i],
            #[trigger] q[j],
        ) by {
            assert(q[i] == p[i] && q[j] == p[j]);
        }
        assert(is_path(t, q));
        assert(q[0] == p[0]);
        lemma_closed_path(t, r, q);
        let a = p[p.len() - 2];
        let b = p[p.len() - 1];
        assert(edge(t, a, b));
        let w = choose|w: int| 0 <= w < r.len() && r[w] == a;
        let k = choose|k: int| 0 <= k < dep_names(t, a).len() && dep_names(t, a)[k] == b;
        assert(dep_names(t, r[w])[k] == b);
    }
}

/// The order in which to install the packages of the table: every package
/// it names or reaches, each once, each after the packages it depends on
/// (but where two depend on each other through a cycle).
pub fn determine_install_order(dependencies: &DependencyTable) -> (r: Vec<String>)
    ensures
        string_views(r@).no_duplicates(),
        ordered(dependencies@, string_views(r@)),
        forall|x: Seq<char>| string_views(r@).contains(x) <==> rooted(dependencies@, x),
{
    let ghost t = dependencies@;
    let mut install_order: Vec<String> = Vec::new();
    let mut visited: Vec<String> = Vec::new();
    let mut temp: Vec<String> = Vec::new();
    let ghost empty = Seq::<Seq<char>>::empty();
    proof {
        assert(string_views(install_order@) =~= empty);
        assert(string_views(visited@) =~= empty);
        assert(string_views(temp@) =~= empty);
    }
    let mut i: usize = 0;
    while i < dependencies.entries.len()
        invariant
            t == dependencies@,
            i <= dependencies.entries@.len(),
            empty == Seq::<Seq<char>>::empty(),
            string_views(visited@) == string_views(install_order@),
            string_views(temp@) == empty,
            string_views(install_order@).no_duplicates(),
            ordered(t, string_views(install_order@)),
            closed(t, string_views(install_order@), empty),
            forall|w: int|
                0 <= w < install_order@.len() ==> rooted(t, #[trigger] string_views(install_order@)[w]),
            forall|j: int| 0 <= j < i ==> string_views(install_order@).contains(#[trigger] t[j].0),
        decreases dependencies.entries@.len() - i,
    {
        let ghost before = string_views(install_order@);
        let key = dependencies.entries[i].0.as_str();
        proof {
            assert(key@ == t[i as int].0);
        }
        if !contains_string(&visited, key) {
            topological_sort(key, dependencies, &mut visited, &mut temp, &mut install_order);
            proof {
                let k = key@;
                lemma_entry_index(t, k);
                assert(is_key(t, k));
                assert(!empty.contains(k));
                let now = string_views(install_order@);
                let n = now.skip(before.len() as int);
                assert(walk_appends(t, k, before, empty, n));
                assert(before + empty =~= before);
                lemma_concat_contains(before, n);
                assert(disjoint(before, n)) by {
                    assert forall|a: int, b: int| 0 <= a < before.len() && 0 <= b < n.len() implies before[a]
                        != n[b] by {}
                }
                vstd::seq_lib::lemma_no_dup_in_concat(before, n);
                assert(ordered(t, now)) by {
                    assert forall|a: int, kk: int|
                        0 <= a < now.len() && 0 <= kk < dep_names(t, now[a]).len() implies now.take(
                        a,
                    ).contains(#[trigger] dep_names(t, now[a])[kk]) || reaches(
                        t,
                        dep_names(t, now[a])[kk],
                        now[a],
                    ) by {
                        if a < before.len() {
                            assert(now[a] == before[a]);
                            assert(now.take(a) =~= before.take(a));
                        } else {
                            let b = a - before.len();
                            assert(now[a] == n[b]);
                            assert(now.take(a) =~= before + n.take(b));
                            lemma_concat_contains(before, n.take(b));
                            assert(n.take(b).contains(dep_names(t, n[b])[kk]) || (before
                                + empty).contains(dep_names(t, n[b])[kk]) || reaches(
                                t,
                                dep_names(t, n[b])[kk],
                                n[b],
                            ));
                        }
                    }
                }
                assert(closed(t, now, empty)) by {
                    assert forall|a: int, kk: int|
                        0 <= a < now.len() && 0 <= kk < dep_names(t, now[a]).len() implies now.contains(
                        #[trigger] dep_names(t, now[a])[kk],
                    ) || empty.contains(dep_names(t, now[a])[kk]) by {
                        if a < before.len() {
                            assert(now[a] == before[a]);
                            assert(before.contains(dep_names(t, before[a])[kk]) || empty.contains(
                                dep_names(t, before[a])[kk],
                            ));
                        } else {
                            let b = a - before.len();
                            assert(now[a] == n[b]);
                            assert(n.contains(dep_names(t, n[b])[kk]) || (before + empty).contains(
                                dep_names(t, n[b])[kk],
                            ));
                        }
                    }
                }
                assert forall|w: int| 0 <= w < install_order@.len() implies rooted(
                    t,
                    #[trigger] string_views(install_order@)[w],
                ) by {
                    if w < before.len() {
                        assert(now[w] == before[w]);
                    } else {
                        assert(now[w] == n[w - before.len()]);
                        assert(reaches(t, k, n[w - before.len()]));
                    }
                }
                assert forall|j: int| 0 <= j <= i implies now.contains(#[trigger] t[j].0) by {
                    if j == i {
                        assert(n[n.len() - 1] == k);
                    }
                }
            }
        }
        i += 1;
    }
    proof {
        let r = string_views(install_order@);
        assert forall|x: Seq<char>| rooted(t, x) implies r.contains(x) by {
            let k = choose|k: Seq<char>| #[trigger] is_key(t, k) && reaches(t, k, x);
            lemma_entry_index(t, k);
            let j = entry_index(t, k)->0;
            assert(r.contains(t[j].0));
            let p = choose|p: Seq<Seq<char>>| #[trigger] is_path(t, p) && p[0] == k && p.last() == x;
            lemma_closed_path(t, r, p);
        }
        assert forall|x: Seq<char>| r.contains(x) implies rooted(t, x) by {
            let w = choose|w: int| 0 <= w < r.len() && r[w] == x;
        }
    }
    install_order
}


/// Law: when no package depends on itself, directly or not, a walk order
/// (such as `determine_install_order` gives) puts every package after all
/// the packages it depends on.
pub proof fn lemma_acyclic_order_is_topological(t: TableView, order: Seq<Seq<char>>)
    requires
        ordered(t, order),
        acyclic(t),
    ensures
        topological(t, order),
{
    assert forall|i: int, k: int|
        0 <= i < order.len() && 0 <= k < dep_names(t, order[i]).len() implies order.take(
        i,
    ).contains(#[trigger] dep_names(t, order[i])[k]) by {
        let x = dep_names(t, order[i])[k];
        assert(edge(t, order[i], x));
    }
}

} // verus!

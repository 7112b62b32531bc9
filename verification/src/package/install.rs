//! Installing packages: finding what the requested packages depend on,
//! and in which order to install them.
use super::order::{
    acyclic, contains_string, dep_names, determine_install_order, edge,
    lemma_acyclic_order_is_topological, lemma_reaches_self, ordered, rooted, table_get,
    topological, DependencyTable, TableView,
};
use crate::control::string_views;
use crate::package::{
    copy_depends, depend_type_text, depend_views, dependency_type_of, parse_dependency_type,
    parse_deb_version, DependInfo, DependSpec,
};
use crate::text::shifted;
use crate::www::WwwPackageInfo;
use vstd::prelude::*;

verus! {

/// The position of the first package of the list with the id `id`.
pub open spec fn package_index(l: Seq<WwwPackageInfo>, id: Seq<char>) -> Option<int>
    decreases l.len(),
{
    if l.len() == 0 {
        None
    } else if l[0].about.id@ == id {
        Some(0)
    } else {
        shifted(package_index(l.drop_first(), id), 1)
    }
}

/// A dependency as the resolver records it: its type written out and read
/// back by `dependency_type_of`, its name and version as they stand.
pub open spec fn normalized(d: DependSpec) -> DependSpec {
    DependSpec {
        depend_type: dependency_type_of(depend_type_text(d.depend_type)).0,
        name: d.name,
        version: d.version,
        index: dependency_type_of(depend_type_text(d.depend_type)).1,
    }
}

/// The dependencies of the package `id` as the server list gives them (those
/// of its first entry), or none when the list does not offer it.
pub open spec fn package_dependencies(l: Seq<WwwPackageInfo>, id: Seq<char>) -> Seq<DependSpec> {
    match package_index(l, id) {
        Some(i) => depend_views(l[i].about.dependencies@).map_values(|d: DependSpec| normalized(d)),
        None => seq![],
    }
}

/// The names of the packages that `id` depends on, by the server list.
pub open spec fn dependency_names(l: Seq<WwwPackageInfo>, id: Seq<char>) -> Seq<Seq<char>> {
    package_dependencies(l, id).map_values(|d: DependSpec| d.name)
}

proof fn lemma_package_index(l: Seq<WwwPackageInfo>, id: Seq<char>)
    ensures
        package_index(l, id) matches Some(i) ==> 0 <= i < l.len() && l[i].about.id@ == id && forall|
            j: int,
        | 0 <= j < i ==> l[j].about.id@ != id,
        package_index(l, id) is None ==> forall|j: int| 0 <= j < l.len() ==> l[j].about.id@ != id,
    decreases l.len(),
{
    if l.len() > 0 && l[0].about.id@ != id {
        lemma_package_index(l.drop_first(), id);
        assert forall|j: int| 0 < j < l.len() implies l[j] == l.drop_first()[j - 1] by {}
    }
}

/// `j` is the first entry of the list `l` with the id `id`.
pub open spec fn first_entry(l: Seq<WwwPackageInfo>, id: Seq<char>, j: int) -> bool {
    0 <= j < l.len() && l[j].about.id@ == id && forall|m: int| 0 <= m < j ==> l[m].about.id@ != id
}

/// Law: the dependencies recorded for a package are those of its first
/// entry in the server list, one for one, each with the same name and the
/// same version requirement; a package the list does not offer has none.
pub proof fn lemma_package_dependencies(l: Seq<WwwPackageInfo>, id: Seq<char>)
    ensures
        forall|j: int|
            #[trigger] first_entry(l, id, j) ==> package_dependencies(l, id).len()
                == l[j].about.dependencies@.len() && forall|k: int|
                0 <= k < l[j].about.dependencies@.len() ==> #[trigger] package_dependencies(l, id)[k].name
                    == l[j].about.dependencies@[k].name@ && package_dependencies(l, id)[k].version
                    == l[j].about.dependencies@[k].version@,
        (forall|j: int| 0 <= j < l.len() ==> l[j].about.id@ != id) ==> package_dependencies(l, id).len() == 0,
{
    lemma_package_index(l, id);
    assert forall|j: int| #[trigger] first_entry(l, id, j) implies package_dependencies(l, id).len()
        == l[j].about.dependencies@.len() && forall|k: int|
        0 <= k < l[j].about.dependencies@.len() ==> #[trigger] package_dependencies(l, id)[k].name
            == l[j].about.dependencies@[k].name@ && package_dependencies(l, id)[k].version
            == l[j].about.dependencies@[k].version@ by {
        match package_index(l, id) {
            Some(i) => {
                if i < j {
                    assert(l[i].about.id@ == id);
                } else if j < i {
                    assert(l[j].about.id@ == id);
                }
                assert(i == j);
                let ds = l[j].about.dependencies@;
                assert forall|k: int| 0 <= k < ds.len() implies #[trigger] package_dependencies(l, id)[k].name
                    == ds[k].name@ && package_dependencies(l, id)[k].version == ds[k].version@ by {
                    assert(depend_views(ds)[k] == ds[k]@);
                }
            },
            None => {
                assert(l[j].about.id@ != id);
            },
        }
    }
}

/// The dependencies of `package_id` by the server list, each with its type
/// written out and read back (`parse_dependency_type`).
pub fn get_package_dependencies(package_id: &str, package_list: &Vec<WwwPackageInfo>) -> (r: Vec<
    DependInfo,
>)
    ensures
        depend_views(r@) == package_dependencies(package_list@, package_id@),
        forall|j: int|
            #[trigger] first_entry(package_list@, package_id@, j) ==> depend_views(r@).len()
                == package_list@[j].about.dependencies@.len() && forall|k: int|
                0 <= k < package_list@[j].about.dependencies@.len() ==> #[trigger] depend_views(r@)[k].name
                    == package_list@[j].about.dependencies@[k].name@ && depend_views(r@)[k].version
                    == package_list@[j].about.dependencies@[k].version@,
        (forall|j: int| 0 <= j < package_list@.len() ==> package_list@[j].about.id@ != package_id@)
            ==> r@.len() == 0,
{
    let r = dependencies_of(package_id, package_list);
    proof {
        lemma_package_dependencies(package_list@, package_id@);
    }
    r
}

fn dependencies_of(package_id: &str, package_list: &Vec<WwwPackageInfo>) -> (r: Vec<DependInfo>)
    ensures
        depend_views(r@) == package_dependencies(package_list@, package_id@),
{
    let ghost l = package_list@;
    let owned = package_id.to_owned();
    let mut i: usize = 0;
    while i < package_list.len()
        invariant
            i <= package_list@.len(),
            l == package_list@,
            owned@ == package_id@,
            forall|j: int| 0 <= j < i ==> l[j].about.id@ != package_id@,
        decreases package_list@.len() - i,
    {
        if package_list[i].about.id == owned {
            proof {
                lemma_package_index(l, package_id@);
            }
            let deps = &package_list[i].about.dependencies;
            let ghost want = package_dependencies(l, package_id@);
            let mut r: Vec<DependInfo> = Vec::new();
            let mut k: usize = 0;
            while k < deps.len()
                invariant
                    k <= deps@.len(),
                    want == depend_views(deps@).map_values(|d: DependSpec| normalized(d)),
                    depend_views(r@) == want.take(k as int),
                decreases deps@.len() - k,
            {
                let dep = &deps[k];
                let (depend_type, index) = parse_dependency_type(dep.depend_type.to_string().as_str());
                let version = parse_deb_version(dep.version.as_str());
                let ghost old_r = depend_views(r@);
                r.push(DependInfo { depend_type, name: dep.name.clone(), version, index });
                proof {
                    assert(want[k as int] == normalized(deps@[k as int]@));
                    assert(want.take(k + 1) =~= want.take(k as int).push(want[k as int]));
                    assert(depend_views(r@) =~= old_r.push(want[k as int]));
                }
                k += 1;
            }
            proof {
                assert(want.take(k as int) =~= want);
            }
            return r;
        }
        i += 1;
    }
    proof {
        lemma_package_index(l, package_id@);
    }
    let r: Vec<DependInfo> = Vec::new();
    assert(depend_views(r@) =~= Seq::<DependSpec>::empty());
    r
}

/// Every name the server list mentions: package ids and dependency names.
pub open spec fn list_nodes(l: Seq<WwwPackageInfo>) -> Seq<Seq<char>>
    decreases l.len(),
{
    if l.len() == 0 {
        seq![]
    } else {
        seq![l[0].about.id@] + dependency_names(l, l[0].about.id@) + list_nodes(l.drop_first())
    }
}

proof fn lemma_list_nodes(l: Seq<WwwPackageInfo>, a: Seq<char>)
    requires
        dependency_names(l, a).len() > 0,
    ensures
        list_nodes(l).contains(a),
        forall|k: int|
            0 <= k < dependency_names(l, a).len() ==> list_nodes(l).contains(
                #[trigger] dependency_names(l, a)[k],
            ),
    decreases l.len(),
{
    lemma_package_index(l, a);
    let tail = l.drop_first();
    let head = seq![l[0].about.id@] + dependency_names(l, l[0].about.id@);
    assert(list_nodes(l) == head + list_nodes(tail));
    if l[0].about.id@ == a {
        assert(list_nodes(l)[0] == a);
        assert forall|k: int| 0 <= k < dependency_names(l, a).len() implies list_nodes(l).contains(
            #[trigger] dependency_names(l, a)[k],
        ) by {
            assert(list_nodes(l)[1 + k] == head[1 + k]);
        }
    } else {
        let i = package_index(tail, a);
        assert(package_index(l, a) == shifted(i, 1));
        if let Some(ii) = i {
            lemma_package_index(tail, a);
            assert(l[ii + 1] == tail[ii]);
        }
        assert(dependency_names(l, a) =~= dependency_names(tail, a));
        lemma_list_nodes(tail, a);
        let w = choose|w: int| 0 <= w < list_nodes(tail).len() && list_nodes(tail)[w] == a;
        assert(list_nodes(l)[head.len() + w] == list_nodes(tail)[w]);
        assert forall|k: int| 0 <= k < dependency_names(l, a).len() implies list_nodes(l).contains(
            #[trigger] dependency_names(l, a)[k],
        ) by {
            assert(dependency_names(l, a)[k] == dependency_names(tail, a)[k]);
            assert(list_nodes(tail).contains(dependency_names(tail, a)[k]));
            let v = choose|v: int|
                0 <= v < list_nodes(tail).len() && list_nodes(tail)[v] == dependency_names(
                    tail,
                    a,
                )[k];
            assert(list_nodes(l)[head.len() + v] == list_nodes(tail)[v]);
        }
    }
}

/// `q` is a chain of dependencies by the server list.
pub open spec fn is_chain(l: Seq<WwwPackageInfo>, q: Seq<Seq<char>>) -> bool {
    &&& q.len() >= 1
    &&& forall|i: int, j: int|
        0 <= i && j == i + 1 && j < q.len() ==> dependency_names(l, #[trigger] q[i]).contains(
            #[trigger] q[j],
        )
}

/// No element of `q` is pending or installed.
pub open spec fn avoids(q: Seq<Seq<char>>, pending: Seq<Seq<char>>, installed: Seq<Seq<char>>) -> bool {
    forall|i: int| 0 <= i < q.len() ==> !pending.contains(#[trigger] q[i]) && !installed.contains(q[i])
}

/// `x` is `a` or one of its dependencies, directly or not, along a chain on
/// which no package is pending or installed.
pub open spec fn resolvable(
    l: Seq<WwwPackageInfo>,
    pending: Seq<Seq<char>>,
    installed: Seq<Seq<char>>,
    a: Seq<char>,
    x: Seq<char>,
) -> bool {
    exists|q: Seq<Seq<char>>|
        #[trigger] is_chain(l, q) && q[0] == a && q.last() == x && avoids(q, pending, installed)
}

proof fn last_start(q: Seq<Seq<char>>, p: Seq<char>, from: int) -> (s: int)
    requires
        0 <= from < q.len(),
        q[from] == p,
    ensures
        from <= s < q.len(),
        q[s] == p,
        forall|i: int| s < i < q.len() ==> q[i] != p,
    decreases q.len() - from,
{
    if exists|i: int| from < i < q.len() && q[i] == p {
        let i = choose|i: int| from < i < q.len() && q[i] == p;
        last_start(q, p, i)
    } else {
        from
    }
}

/// A package `x` is resolvable from `p` exactly when it is `p` or resolvable
/// from one of `p`'s dependencies once `p` itself is pending.
proof fn lemma_resolvable_split(
    l: Seq<WwwPackageInfo>,
    pending: Seq<Seq<char>>,
    installed: Seq<Seq<char>>,
    p: Seq<char>,
    x: Seq<char>,
)
    requires
        !pending.contains(p),
        !installed.contains(p),
    ensures
        resolvable(l, pending, installed, p, x) <==> (x == p || exists|j: int|
            0 <= j < dependency_names(l, p).len() && resolvable(
                l,
                pending.push(p),
                installed,
                #[trigger] dependency_names(l, p)[j],
                x,
            )),
{
    let dn = dependency_names(l, p);
    if resolvable(l, pending, installed, p, x) {
        let q = choose|q: Seq<Seq<char>>|
            #[trigger] is_chain(l, q) && q[0] == p && q.last() == x && avoids(q, pending, installed);
        let s = last_start(q, p, 0);
        let q2 = q.skip(s);
        if q2.len() > 1 {
            assert(dn.contains(q2[1])) by {
                assert(q2[0] == q[s] && q2[1] == q[s + 1]);
            }
            let j = choose|j: int| 0 <= j < dn.len() && dn[j] == q2[1];
            let q3 = q2.drop_first();
            assert forall|a: int, b: int| 0 <= a && b == a + 1 && b < q3.len() implies dependency_names(
                l,
                #[trigger] q3[a],
            ).contains(#[trigger] q3[b]) by {
                assert(q3[a] == q[s + 1 + a] && q3[b] == q[s + 1 + b]);
            }
            assert(avoids(q3, pending.push(p), installed)) by {
                assert forall|i: int| 0 <= i < q3.len() implies !pending.push(p).contains(
                    #[trigger] q3[i],
                ) && !installed.contains(q3[i]) by {
                    assert(q3[i] == q[s + 1 + i]);
                    if pending.push(p).contains(q3[i]) {
                        let w = choose|w: int| 0 <= w < pending.push(p).len() && pending.push(p)[w] == q3[i];
                        if w < pending.len() {
                            assert(pending[w] == q3[i]);
                        }
                    }
                }
            }
            assert(is_chain(l, q3));
            assert(q3.last() == x);
            assert(resolvable(l, pending.push(p), installed, dn[j], x));
        } else {
            assert(q2.last() == q.last());
        }
    }
    if x == p {
        let q = seq![p];
        assert(is_chain(l, q));
        assert(avoids(q, pending, installed));
    } else if exists|j: int|
        0 <= j < dn.len() && resolvable(l, pending.push(p), installed, #[trigger] dn[j], x) {
        let j = choose|j: int|
            0 <= j < dn.len() && resolvable(l, pending.push(p), installed, #[trigger] dn[j], x);
        let q = choose|q: Seq<Seq<char>>|
            #[trigger] is_chain(l, q) && q[0] == dn[j] && q.last() == x && avoids(
                q,
                pending.push(p),
                installed,
            );
        let q2 = seq![p] + q;
        assert forall|a: int, b: int| 0 <= a && b == a + 1 && b < q2.len() implies dependency_names(
            l,
            #[trigger] q2[a],
        ).contains(#[trigger] q2[b]) by {
            if a == 0 {
                assert(q2[b] == q[0]);
            } else {
                assert(q2[a] == q[a - 1] && q2[b] == q[b - 1]);
            }
        }
        assert(avoids(q2, pending, installed)) by {
            assert forall|i: int| 0 <= i < q2.len() implies !pending.contains(#[trigger] q2[i])
                && !installed.contains(q2[i]) by {
                if i > 0 {
                    assert(q2[i] == q[i - 1]);
                    if pending.contains(q2[i]) {
                        let w = choose|w: int| 0 <= w < pending.len() && pending[w] == q2[i];
                        assert(pending.push(p)[w] == q2[i]);
                    }
                }
            }
        }
        assert(is_chain(l, q2));
        assert(q2.last() == x);
    }
}

/// Marking a package of the list pending leaves fewer of the list's
/// packages unmarked.
proof fn lemma_pending_measure(n: Seq<Seq<char>>, pend: Seq<Seq<char>>, p: Seq<char>)
    requires
        n.contains(p),
        !pend.contains(p),
    ensures
        n.to_set().difference(pend.push(p).to_set()).len() < n.to_set().difference(
            pend.to_set(),
        ).len(),
{
    let a = n.to_set().difference(pend.to_set());
    assert(pend.push(p).to_set() =~= pend.to_set().insert(p)) by {
        assert forall|x: Seq<char>| pend.push(p).to_set().contains(x) <==> pend.to_set().insert(p).contains(x) by {
            if pend.push(p).contains(x) {
                let i = choose|i: int| 0 <= i < pend.push(p).len() && pend.push(p)[i] == x;
                if i < pend.len() {
                    assert(pend[i] == x);
                }
            }
            if pend.contains(x) {
                let i = choose|i: int| 0 <= i < pend.len() && pend[i] == x;
                assert(pend.push(p)[i] == x);
            }
            if x == p {
                assert(pend.push(p)[pend.len() as int] == x);
            }
        }
    }
    assert(n.to_set().difference(pend.push(p).to_set()) =~= a.remove(p));
    vstd::seq_lib::seq_to_set_is_finite(n);
    assert(a.subset_of(n.to_set()));
    vstd::set_lib::lemma_len_subset(a, n.to_set());
    assert(a.contains(p));
}

/// Records in `resolved` the dependencies of `package_id` and, in turn, of
/// each package it depends on, directly or not, that is neither pending nor
/// installed. A package that is already pending closes a cycle and is passed
/// over.
pub fn resolve_dependencies(
    package_id: &str,
    package_list: &Vec<WwwPackageInfo>,
    installed: &Vec<String>,
    pending: &mut Vec<String>,
    resolved: &mut DependencyTable,
)
    ensures
        string_views(final(pending)@) == string_views(old(pending)@),
        string_views(old(pending)@).contains(package_id@) || string_views(installed@).contains(
            package_id@,
        ) ==> final(resolved)@ == old(resolved)@,
        forall|x: Seq<char>|
            #[trigger] table_get(final(resolved)@, x) == if resolvable(
                package_list@,
                string_views(old(pending)@),
                string_views(installed@),
                package_id@,
                x,
            ) {
                Some(package_dependencies(package_list@, x))
            } else {
                table_get(old(resolved)@, x)
            },
    decreases list_nodes(package_list@).to_set().difference(string_views(old(pending)@).to_set()).len(),
{
    let ghost l = package_list@;
    let ghost p = package_id@;
    let ghost pend = string_views(pending@);
    let ghost inst = string_views(installed@);
    let ghost t0 = resolved@;
    if contains_string(pending, package_id) || contains_string(installed, package_id) {
        proof {
            assert forall|x: Seq<char>| !resolvable(l, pend, inst, p, x) by {
                if resolvable(l, pend, inst, p, x) {
                    let q = choose|q: Seq<Seq<char>>|
                        #[trigger] is_chain(l, q) && q[0] == p && q.last() == x && avoids(
                            q,
                            pend,
                            inst,
                        );
                    assert(!pend.contains(q[0]));
                }
            }
        }
        return;
    }
    pending.push(package_id.to_owned());
    let ghost pend1 = string_views(pending@);
    proof {
        assert(pend1 =~= pend.push(p));
    }
    let dependencies = get_package_dependencies(package_id, package_list);
    resolved.insert(package_id.to_owned(), copy_depends(&dependencies));
    let ghost dn = dependency_names(l, p);
    proof {
        assert(dn.len() == dependencies@.len());
        assert forall|j: int| 0 <= j < dn.len() implies #[trigger] dn[j] == dependencies@[j].name@ by {
            assert(depend_views(dependencies@)[j] == dependencies@[j]@);
        }
    }
    let mut k: usize = 0;
    while k < dependencies.len()
        invariant
            l == package_list@,
            dn == dependency_names(l, p),
            dn.len() == dependencies@.len(),
            forall|j: int| 0 <= j < dn.len() ==> #[trigger] dn[j] == dependencies@[j].name@,
            k <= dependencies@.len(),
            string_views(pending@) == pend.push(p),
            pend == string_views(old(pending)@),
            pend.len() == old(pending)@.len(),
            inst == string_views(installed@),
            !pend.contains(p),
            !(pend.contains(p) || inst.contains(p)),
            forall|x: Seq<char>|
                #[trigger] table_get(resolved@, x) == if x == p || exists|j: int|
                    0 <= j < k && resolvable(l, pend.push(p), inst, #[trigger] dn[j], x) {
                    Some(package_dependencies(l, x))
                } else {
                    table_get(t0, x)
                },
        decreases dependencies@.len() - k,
    {
        let ghost tb = resolved@;
        proof {
            lemma_list_nodes(l, p);
            lemma_pending_measure(list_nodes(l), pend, p);
        }
        resolve_dependencies(dependencies[k].name.as_str(), package_list, installed, pending, resolved);
        proof {
            assert forall|x: Seq<char>| #[trigger]
                table_get(resolved@, x) == if x == p || exists|j: int|
                    0 <= j < k + 1 && resolvable(l, pend.push(p), inst, #[trigger] dn[j], x) {
                    Some(package_dependencies(l, x))
                } else {
                    table_get(t0, x)
                } by {
                if resolvable(l, pend.push(p), inst, dn[k as int], x) {
                } else if exists|j: int|
                    0 <= j < k + 1 && resolvable(l, pend.push(p), inst, #[trigger] dn[j], x) {
                    let j = choose|j: int|
                        0 <= j < k + 1 && resolvable(l, pend.push(p), inst, #[trigger] dn[j], x);
                    assert(j < k);
                }
                assert(table_get(tb, x) == if x == p || exists|j: int|
                    0 <= j < k && resolvable(l, pend.push(p), inst, #[trigger] dn[j], x) {
                    Some(package_dependencies(l, x))
                } else {
                    table_get(t0, x)
                });
            }
        }
        k += 1;
    }
    let ghost pl = pending@;
    pending.pop();
    proof {
        assert(pending@ =~= pl.drop_last());
        assert(string_views(pending@) =~= pend) by {
            assert forall|i: int| 0 <= i < pend.len() implies string_views(pending@)[i] == pend[i] by {
                assert(string_views(pl)[i] == pend.push(p)[i]);
            }
        }
        assert forall|x: Seq<char>| #[trigger]
            table_get(resolved@, x) == if resolvable(l, pend, inst, p, x) {
                Some(package_dependencies(l, x))
            } else {
                table_get(t0, x)
            } by {
            lemma_resolvable_split(l, pend, inst, p, x);
        }
    }
}


/// The arguments whose flag is `want`, in order.
pub open spec fn selected(args: Seq<Seq<char>>, flags: Seq<bool>, want: bool) -> Seq<Seq<char>>
    decreases args.len(),
{
    if args.len() == 0 {
        seq![]
    } else if flags[args.len() - 1] == want {
        selected(args.drop_last(), flags, want).push(args.last())
    } else {
        selected(args.drop_last(), flags, want)
    }
}

/// `x` is resolvable, with nothing pending, from one of the requested
/// packages `requested`.
pub open spec fn requested_resolvable(
    l: Seq<WwwPackageInfo>,
    installed: Seq<Seq<char>>,
    requested: Seq<Seq<char>>,
    x: Seq<char>,
) -> bool {
    exists|j: int|
        0 <= j < requested.len() && resolvable(
            l,
            Seq::<Seq<char>>::empty(),
            installed,
            #[trigger] requested[j],
            x,
        )
}

/// `order` without the packages in `installed`.
pub open spec fn not_installed(order: Seq<Seq<char>>, installed: Seq<Seq<char>>) -> Seq<Seq<char>>
    decreases order.len(),
{
    if order.len() == 0 {
        seq![]
    } else if installed.contains(order.last()) {
        not_installed(order.drop_last(), installed)
    } else {
        not_installed(order.drop_last(), installed).push(order.last())
    }
}

/// After an installation, every package of the install order is installed,
/// and none that was installed before is installed a second time: the
/// packages added are exactly those of the order that were not installed.
pub proof fn lemma_installed_after(order: Seq<Seq<char>>, installed: Seq<Seq<char>>)
    ensures
        forall|x: Seq<char>|
            #[trigger] not_installed(order, installed).contains(x) <==> (order.contains(x)
                && !installed.contains(x)),
        forall|x: Seq<char>| order.contains(x) ==> #[trigger] (installed + not_installed(order, installed)).contains(x),
    decreases order.len(),
{
    if order.len() > 0 {
        lemma_installed_after(order.drop_last(), installed);
        let prev = not_installed(order.drop_last(), installed);
        assert forall|x: Seq<char>| #[trigger] order.contains(x) <==> (order.drop_last().contains(x) || x == order.last()) by {
            if order.contains(x) {
                let k = choose|k: int| 0 <= k < order.len() && order[k] == x;
                if k < order.len() - 1 {
                    assert(order.drop_last()[k] == x);
                }
            }
            if order.drop_last().contains(x) {
                let k = choose|k: int| 0 <= k < order.drop_last().len() && order.drop_last()[k] == x;
                assert(order[k] == x);
            }
            if x == order.last() {
                assert(order[order.len() - 1] == x);
            }
        }
        if !installed.contains(order.last()) {
            assert forall|x: Seq<char>| #[trigger] prev.push(order.last()).contains(x) <==> (prev.contains(x) || x == order.last()) by {
                if prev.push(order.last()).contains(x) {
                    let k = choose|k: int| 0 <= k < prev.len() + 1 && prev.push(order.last())[k] == x;
                    if k < prev.len() {
                        assert(prev[k] == x);
                    }
                }
                if prev.contains(x) {
                    let k = choose|k: int| 0 <= k < prev.len() && prev[k] == x;
                    assert(prev.push(order.last())[k] == x);
                }
                if x == order.last() {
                    assert(prev.push(order.last())[prev.len() as int] == x);
                }
            }
        }
        let all = installed + not_installed(order, installed);
        assert forall|x: Seq<char>| order.contains(x) implies #[trigger] all.contains(x) by {
            if installed.contains(x) {
                let k = choose|k: int| 0 <= k < installed.len() && installed[k] == x;
                assert(all[k] == x);
            } else {
                let n = not_installed(order, installed);
                assert(n.contains(x));
                let k = choose|k: int| 0 <= k < n.len() && n[k] == x;
                assert(all[installed.len() + k] == x);
            }
        }
    }
}

/// `x` comes before `y` in `order`.
pub open spec fn comes_before(order: Seq<Seq<char>>, x: Seq<char>, y: Seq<char>) -> bool {
    exists|a: int, b: int| 0 <= a < b < order.len() && #[trigger] order[a] == x && #[trigger] order[b] == y
}

/// `not_installed(order, installed)` keeps its elements in the order
/// they have in `order`.
proof fn lemma_not_installed_in_order(order: Seq<Seq<char>>, installed: Seq<Seq<char>>)
    ensures
        forall|i: int, j: int|
            0 <= i < j < not_installed(order, installed).len() ==> comes_before(
                order,
                #[trigger] not_installed(order, installed)[i],
                #[trigger] not_installed(order, installed)[j],
            ),
    decreases order.len(),
{
    if order.len() > 0 {
        let prev = order.drop_last();
        lemma_not_installed_in_order(prev, installed);
        lemma_installed_after(prev, installed);
        let pn = not_installed(prev, installed);
        let n = not_installed(order, installed);
        assert forall|i: int, j: int| 0 <= i < j < n.len() implies comes_before(order, #[trigger] n[i], #[trigger] n[j]) by {
            if j < pn.len() {
                assert(n[i] == pn[i] && n[j] == pn[j]);
                assert(comes_before(prev, pn[i], pn[j]));
                let (a, b) = choose|a: int, b: int|
                    0 <= a < b < prev.len() && #[trigger] prev[a] == pn[i] && #[trigger] prev[b] == pn[j];
                assert(order[a] == prev[a] && order[b] == prev[b]);
            } else {
                assert(n[i] == pn[i]);
                assert(n[j] == order.last());
                assert(pn.contains(pn[i]));
                assert(prev.contains(pn[i]));
                let a = choose|a: int| 0 <= a < prev.len() && prev[a] == pn[i];
                assert(order[a] == prev[a]);
                assert(order[order.len() - 1] == n[j]);
            }
        }
    }
}

/// Law: where no package depends on itself, directly or not, the packages
/// an installation adds (`not_installed` of its order) are each installed
/// exactly once, none of them was installed before, and each comes after
/// every package of the plan that it depends on.
pub proof fn lemma_install_plan(t: TableView, order: Seq<Seq<char>>, installed: Seq<Seq<char>>)
    requires
        order.no_duplicates(),
        ordered(t, order),
        acyclic(t),
    ensures
        not_installed(order, installed).no_duplicates(),
        forall|x: Seq<char>| #[trigger] not_installed(order, installed).contains(x) ==> !installed.contains(x),
        forall|i: int, j: int|
            0 <= i < not_installed(order, installed).len() && 0 <= j < not_installed(
                order,
                installed,
            ).len() && edge(t, #[trigger] not_installed(order, installed)[i], #[trigger] not_installed(order, installed)[j])
                ==> j < i,
{
    let n = not_installed(order, installed);
    lemma_installed_after(order, installed);
    lemma_not_installed_in_order(order, installed);
    lemma_acyclic_order_is_topological(t, order);
    assert forall|i: int, j: int| 0 <= i < n.len() && 0 <= j < n.len() && i != j implies n[i] != n[j] by {
        let (lo, hi) = if i < j { (i, j) } else { (j, i) };
        assert(comes_before(order, n[lo], n[hi]));
    }
    assert forall|i: int, j: int|
        0 <= i < n.len() && 0 <= j < n.len() && edge(t, #[trigger] n[i], #[trigger] n[j]) implies j < i by {
        let x = n[i];
        let y = n[j];
        if j == i {
            lemma_reaches_self(t, x);
            assert(edge(t, x, x));
        } else if j > i {
            assert(comes_before(order, n[i], n[j]));
            let (a, b) = choose|a: int, b: int|
                0 <= a < b < order.len() && #[trigger] order[a] == n[i] && #[trigger] order[b] == n[j];
            let k = choose|k: int| 0 <= k < dep_names(t, x).len() && dep_names(t, x)[k] == y;
            assert(dep_names(t, order[a])[k] == y);
            assert(order.take(a).contains(y));
            let c = choose|c: int| 0 <= c < order.take(a).len() && order.take(a)[c] == y;
            assert(order[c] == y);
        }
    }
}

/// What installing a list of packages comes to.
pub struct InstallPlan {
    /// The arguments that name files, to import as local packages.
    pub local_packages: Vec<String>,
    /// The dependencies found for the other arguments, and in turn for theirs.
    pub resolved: DependencyTable,
    /// Every package of `resolved`, in the order to install them.
    pub install_order: Vec<String>,
    /// The packages of `install_order` that are not installed yet.
    pub to_install: Vec<String>,
}

/// Plans the installation of the packages `args` (`is_local[i]` tells
/// whether `args[i]` names an existing file): the files are imported as local
/// packages; the dependencies of the others are resolved against the server
/// list `package_list`; the packages are put in install order, and those not
/// yet in `installed` are installed and added to it. `None` when no package
/// is named.
pub fn install_packages(
    args: &Vec<String>,
    is_local: &Vec<bool>,
    package_list: &Vec<WwwPackageInfo>,
    installed: &mut Vec<String>,
) -> (r: Option<InstallPlan>)
    requires
        is_local@.len() == args@.len(),
    ensures
        r is None <==> args@.len() == 0,
        r is None ==> final(installed)@ == old(installed)@,
        r matches Some(plan) ==> {
            let a = string_views(args@);
            let inst = string_views(old(installed)@);
            let order = string_views(plan.install_order@);
            &&& string_views(plan.local_packages@) == selected(a, is_local@, true)
            &&& forall|x: Seq<char>|
                #[trigger] table_get(plan.resolved@, x) == if requested_resolvable(
                    package_list@,
                    inst,
                    selected(a, is_local@, false),
                    x,
                ) {
                    Some(package_dependencies(package_list@, x))
                } else {
                    None
                }
            &&& order.no_duplicates()
            &&& ordered(plan.resolved@, order)
            &&& forall|x: Seq<char>| order.contains(x) <==> rooted(plan.resolved@, x)
            &&& string_views(plan.to_install@) == not_installed(order, inst)
            &&& string_views(final(installed)@) == inst + not_installed(order, inst)
        },
{
    if args.len() == 0 {
        return None;
    }
    let ghost a = string_views(args@);
    let ghost inst = string_views(installed@);
    let ghost l = package_list@;
    let mut local_packages: Vec<String> = Vec::new();
    let mut remote: Vec<String> = Vec::new();
    let mut i: usize = 0;
    proof {
        assert(a.take(0) =~= Seq::<Seq<char>>::empty());
        assert(string_views(local_packages@) =~= Seq::<Seq<char>>::empty());
        assert(string_views(remote@) =~= Seq::<Seq<char>>::empty());
    }
    while i < args.len()
        invariant
            i <= args@.len() == is_local@.len(),
            a == string_views(args@),
            string_views(local_packages@) == selected(a.take(i as int), is_local@, true),
            string_views(remote@) == selected(a.take(i as int), is_local@, false),
        decreases args@.len() - i,
    {
        proof {
            assert(a.take(i + 1).drop_last() =~= a.take(i as int));
            assert(a.take(i + 1).last() == args@[i as int]@);
        }
        let ghost lp = string_views(local_packages@);
        let ghost rp = string_views(remote@);
        if is_local[i] {
            local_packages.push(args[i].clone());
            proof {
                assert(string_views(local_packages@) =~= lp.push(args@[i as int]@));
            }
        } else {
            remote.push(args[i].clone());
            proof {
                assert(string_views(remote@) =~= rp.push(args@[i as int]@));
            }
        }
        i += 1;
    }
    proof {
        assert(a.take(i as int) =~= a);
    }
    let ghost req = string_views(remote@);
    let mut resolved = DependencyTable::new();
    let mut pending: Vec<String> = Vec::new();
    let mut j: usize = 0;
    while j < remote.len()
        invariant
            j <= remote@.len(),
            req == string_views(remote@),
            l == package_list@,
            inst == string_views(installed@),
            pending@.len() == 0,
            forall|x: Seq<char>|
                #[trigger] table_get(resolved@, x) == if exists|m: int|
                    0 <= m < j && resolvable(
                        l,
                        Seq::<Seq<char>>::empty(),
                        inst,
                        #[trigger] req[m],
                        x,
                    ) {
                    Some(package_dependencies(l, x))
                } else {
                    None
                },
        decreases remote@.len() - j,
    {
        let ghost tb = resolved@;
        proof {
            assert(string_views(pending@) =~= Seq::<Seq<char>>::empty());
            assert(req[j as int] == remote@[j as int]@);
        }
        resolve_dependencies(remote[j].as_str(), package_list, installed, &mut pending, &mut resolved);
        proof {
            assert(pending@.len() == string_views(pending@).len());
            assert forall|x: Seq<char>| #[trigger]
                table_get(resolved@, x) == if exists|m: int|
                    0 <= m < j + 1 && resolvable(
                        l,
                        Seq::<Seq<char>>::empty(),
                        inst,
                        #[trigger] req[m],
                        x,
                    ) {
                    Some(package_dependencies(l, x))
                } else {
                    None
                } by {
                if resolvable(l, Seq::<Seq<char>>::empty(), inst, req[j as int], x) {
                } else if exists|m: int|
                    0 <= m < j + 1 && resolvable(
                        l,
                        Seq::<Seq<char>>::empty(),
                        inst,
                        #[trigger] req[m],
                        x,
                    ) {
                    let m = choose|m: int|
                        0 <= m < j + 1 && resolvable(
                            l,
                            Seq::<Seq<char>>::empty(),
                            inst,
                            #[trigger] req[m],
                            x,
                        );
                    assert(m < j);
                }
            }
        }
        j += 1;
    }
    let install_order = determine_install_order(&resolved);
    let ghost order = string_views(install_order@);
    let mut to_install: Vec<String> = Vec::new();
    let mut k: usize = 0;
    proof {
        assert(order.take(0) =~= Seq::<Seq<char>>::empty());
        assert(string_views(to_install@) =~= Seq::<Seq<char>>::empty());
        assert(string_views(installed@) =~= inst + Seq::<Seq<char>>::empty());
    }
    while k < install_order.len()
        invariant
            k <= install_order@.len(),
            order == string_views(install_order@),
            order.no_duplicates(),
            inst == string_views(old(installed)@),
            string_views(to_install@) == not_installed(order.take(k as int), inst),
            string_views(installed@) == inst + not_installed(order.take(k as int), inst),
        decreases install_order@.len() - k,
    {
        proof {
            assert(order.take(k + 1).drop_last() =~= order.take(k as int));
            assert(order.take(k + 1).last() == install_order@[k as int]@);
        }
        let ghost ti = string_views(to_install@);
        let ghost ii = string_views(installed@);
        let is_installed = contains_string(installed, install_order[k].as_str());
        proof {
            // the packages added so far come earlier in `order`, so they
            // differ from `order[k]`
            assert(is_installed == inst.contains(order[k as int])) by {
                lemma_not_installed_from(order.take(k as int), inst);
                if ii.contains(order[k as int]) && !inst.contains(order[k as int]) {
                    let w = choose|w: int| 0 <= w < ii.len() && ii[w] == order[k as int];
                    assert(ii[w] == not_installed(order.take(k as int), inst)[w - inst.len()]);
                    let v = choose|v: int|
                        0 <= v < k && order.take(k as int)[v] == not_installed(order.take(k as int), inst)[w
                            - inst.len()];
                    assert(order[v] == order[k as int]);
                }
                if inst.contains(order[k as int]) {
                    let w = choose|w: int| 0 <= w < inst.len() && inst[w] == order[k as int];
                    assert(ii[w] == inst[w]);
                }
            }
        }
        if !is_installed {
            to_install.push(install_order[k].clone());
            installed.push(install_order[k].clone());
            proof {
                assert(string_views(to_install@) =~= ti.push(order[k as int]));
                assert(string_views(installed@) =~= ii.push(order[k as int]));
            }
        }
        k += 1;
    }
    proof {
        assert(order.take(k as int) =~= order);
    }
    Some(InstallPlan { local_packages, resolved, install_order, to_install })
}

/// Every package of `not_installed(order, inst)` is a package of `order`.
proof fn lemma_not_installed_from(order: Seq<Seq<char>>, inst: Seq<Seq<char>>)
    ensures
        forall|w: int|
            0 <= w < not_installed(order, inst).len() ==> exists|v: int|
                0 <= v < order.len() && order[v] == #[trigger] not_installed(order, inst)[w],
    decreases order.len(),
{
    if order.len() > 0 {
        let prev = not_installed(order.drop_last(), inst);
        lemma_not_installed_from(order.drop_last(), inst);
        assert forall|w: int| 0 <= w < not_installed(order, inst).len() implies exists|v: int|
            0 <= v < order.len() && order[v] == #[trigger] not_installed(order, inst)[w] by {
            if w < prev.len() {
                assert(not_installed(order, inst)[w] == prev[w]);
                let v = choose|v: int|
                    0 <= v < order.drop_last().len() && order.drop_last()[v] == prev[w];
                assert(order[v] == order.drop_last()[v]);
            } else {
                assert(order[order.len() - 1] == order.last());
            }
        }
    }
}

} // verus!

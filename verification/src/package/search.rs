//! Searching the packages the servers offer by name.
use crate::text::{append_chars, chars_of, contains, contains_chars, lowercase, string_of, to_lowercase};
use crate::utils::shell::{color_text, color_txt};
use crate::www::WwwPackageInfo;
use vstd::prelude::*;

verus! {

/// Whether a package with the (lowercased) name `lower_name` matches the
/// (lowercased) query `lower_query`: the query occurs in the name.
pub fn matches_query(lower_name: &str, lower_query: &str) -> (b: bool)
    ensures
        b == contains(lower_name@, lower_query@),
{
    contains_chars(chars_of(lower_name).as_slice(), chars_of(lower_query).as_slice())
}

/// The positions, in increasing order, of the packages of `l` whose name,
/// lowercased, contains the lowercased query `q`.
pub open spec fn search_hits(l: Seq<WwwPackageInfo>, q: Seq<char>) -> Seq<int>
    decreases l.len(),
{
    if l.len() == 0 {
        seq![]
    } else if contains(lowercase(l.last().about.name@), lowercase(q)) {
        search_hits(l.drop_last(), q).push(l.len() - 1)
    } else {
        search_hits(l.drop_last(), q)
    }
}

/// The name `name` holds the text `q` somewhere.
pub open spec fn holds_text(name: Seq<char>, q: Seq<char>) -> bool {
    exists|j: int| 0 <= j && j + q.len() <= name.len() && #[trigger] name.subrange(j, j + q.len()) == q
}

/// Law: a position of the list is a hit exactly when the package's name,
/// lowercased, holds the lowercased query at some position; the hits are
/// positions of the list, in increasing order, each once.
pub proof fn lemma_search_hits(l: Seq<WwwPackageInfo>, q: Seq<char>)
    ensures
        forall|i: int|
            0 <= i < l.len() ==> (#[trigger] search_hits(l, q).contains(i) <==> holds_text(
                lowercase(l[i].about.name@),
                lowercase(q),
            )),
        forall|k: int| 0 <= k < search_hits(l, q).len() ==> 0 <= #[trigger] search_hits(l, q)[k] < l.len(),
        forall|a: int, b: int|
            0 <= a < b < search_hits(l, q).len() ==> #[trigger] search_hits(l, q)[a] < #[trigger] search_hits(
                l,
                q,
            )[b],
    decreases l.len(),
{
    if l.len() > 0 {
        let prev = l.drop_last();
        lemma_search_hits(prev, q);
        let hp = search_hits(prev, q);
        let h = search_hits(l, q);
        let n = l.len() - 1;
        let hit = holds_text(lowercase(l.last().about.name@), lowercase(q));
        assert(contains(lowercase(l.last().about.name@), lowercase(q)) == hit);
        if hit {
            assert(h == hp.push(n));
        } else {
            assert(h == hp);
        }
        assert forall|k: int| 0 <= k < h.len() implies 0 <= #[trigger] h[k] < l.len() by {
            if k < hp.len() {
                assert(h[k] == hp[k]);
            }
        }
        assert forall|a: int, b: int| 0 <= a < b < h.len() implies #[trigger] h[a] < #[trigger] h[b] by {
            if b < hp.len() {
                assert(h[a] == hp[a] && h[b] == hp[b]);
            } else {
                assert(h[a] == hp[a]);
            }
        }
        assert forall|i: int| 0 <= i < l.len() implies (#[trigger] h.contains(i) <==> holds_text(
            lowercase(l[i].about.name@),
            lowercase(q),
        )) by {
            if i < n {
                assert(l[i] == prev[i]);
                if h.contains(i) {
                    let k = choose|k: int| 0 <= k < h.len() && h[k] == i;
                    if k < hp.len() {
                        assert(h[k] == hp[k]);
                    }
                }
                if hp.contains(i) {
                    let k = choose|k: int| 0 <= k < hp.len() && hp[k] == i;
                    assert(h[k] == hp[k]);
                }
            } else {
                if hit {
                    assert(h[hp.len() as int] == n);
                } else {
                    if h.contains(i) {
                        let k = choose|k: int| 0 <= k < h.len() && h[k] == i;
                        assert(hp[k] < prev.len());
                    }
                }
            }
        }
    }
}

/// The packages of `packages` that match `query`, ignoring case: their
/// positions in the list, in order.
pub fn search_packages(query: &str, packages: &Vec<WwwPackageInfo>) -> (r: Vec<usize>)
    ensures
        r@.map_values(|i: usize| i as int) == search_hits(packages@, query@),
        forall|i: int|
            0 <= i < packages@.len() ==> ((exists|k: int| 0 <= k < r@.len() && r@[k] == i) <==> holds_text(
                lowercase(packages@[i].about.name@),
                lowercase(query@),
            )),
        forall|a: int, b: int| 0 <= a < b < r@.len() ==> r@[a] < r@[b],
{
    let r = search_positions(query, packages);
    proof {
        lemma_search_hits(packages@, query@);
        let h = search_hits(packages@, query@);
        assert(r@.len() == h.len());
        assert forall|k: int| 0 <= k < r@.len() implies r@[k] as int == h[k] by {
            assert(r@.map_values(|i: usize| i as int)[k] == r@[k] as int);
        }
        assert forall|i: int| 0 <= i < packages@.len() implies ((exists|k: int| 0 <= k < r@.len() && r@[k] == i) <==> holds_text(
                lowercase(packages@[i].about.name@),
                lowercase(query@),
            )) by {
            assert(h.contains(i) <==> holds_text(lowercase(packages@[i].about.name@), lowercase(query@)));
            if exists|k: int| 0 <= k < r@.len() && r@[k] == i {
                let k = choose|k: int| 0 <= k < r@.len() && r@[k] == i;
                assert(h[k] == i);
            }
            if h.contains(i) {
                let k = choose|k: int| 0 <= k < h.len() && h[k] == i;
                assert(r@[k] as int == i);
            }
        }
        assert forall|a: int, b: int| 0 <= a < b < r@.len() implies r@[a] < r@[b] by {
            assert(h[a] < h[b]);
        }
    }
    r
}

fn search_positions(query: &str, packages: &Vec<WwwPackageInfo>) -> (r: Vec<usize>)
    ensures
        r@.map_values(|i: usize| i as int) == search_hits(packages@, query@),
{
    let q = to_lowercase(query);
    let mut r: Vec<usize> = Vec::new();
    let mut i: usize = 0;
    proof {
        assert(packages@.take(0) =~= Seq::<WwwPackageInfo>::empty());
        assert(r@.map_values(|i: usize| i as int) =~= Seq::<int>::empty());
    }
    while i < packages.len()
        invariant
            i <= packages@.len(),
            q@ == lowercase(query@),
            r@.map_values(|i: usize| i as int) == search_hits(packages@.take(i as int), query@),
        decreases packages@.len() - i,
    {
        proof {
            assert(packages@.take(i + 1).drop_last() =~= packages@.take(i as int));
            assert(packages@.take(i + 1).last() == packages@[i as int]);
        }
        let name = to_lowercase(packages[i].about.name.as_str());
        if matches_query(name.as_str(), q.as_str()) {
            let ghost old_r = r@.map_values(|i: usize| i as int);
            r.push(i);
            proof {
                assert(r@.map_values(|i: usize| i as int) =~= old_r.push(i as int));
            }
        }
        i += 1;
    }
    proof {
        assert(packages@.take(i as int) =~= packages@);
    }
    r
}

/// How a package found by a search is shown: its name in green, its
/// address in blue and its type in yellow, each on a line of its own after
/// an empty line, then a rule.
pub open spec fn hit_text(p: WwwPackageInfo) -> Seq<char> {
    "\nPackage: "@ + color_text(p.about.name@, 0, 255, 0) + "\nURL: "@ + color_text(
        p.package_url@,
        0,
        200,
        255,
    ) + "\nType: "@ + color_text(p.package_type@, 255, 200, 0)
        + "\n----------------------------------------"@
}

pub fn hit_summary(p: &WwwPackageInfo) -> (s: String)
    ensures
        s@ == hit_text(*p),
{
    let mut acc: Vec<char> = chars_of("\nPackage: ");
    let name = color_txt(p.about.name.as_str(), 0, 255, 0);
    append_chars(&mut acc, chars_of(name.as_str()).as_slice());
    append_chars(&mut acc, chars_of("\nURL: ").as_slice());
    let url = color_txt(p.package_url.as_str(), 0, 200, 255);
    append_chars(&mut acc, chars_of(url.as_str()).as_slice());
    append_chars(&mut acc, chars_of("\nType: ").as_slice());
    let t = color_txt(p.package_type.as_str(), 255, 200, 0);
    append_chars(&mut acc, chars_of(t.as_str()).as_slice());
    append_chars(&mut acc, chars_of("\n----------------------------------------").as_slice());
    string_of(acc.as_slice())
}

} // verus!

//! Records of `Key: value` lines, the form of apt's package indexes and
//! release files.
use crate::text::{
    char_views, chars_of, copy_range, lines, lines_chars, parse_unsigned, parse_unsigned_chars,
    split, split_chars, split_once, split_once_chars, string_of, trim, trim_chars, words,
    words_chars,
};
use vstd::prelude::*;

verus! {

/// The key and value of a `Key: value` line: the line cut at its first
/// `": "`, both halves trimmed.
pub open spec fn field_of_line(l: Seq<char>) -> Option<(Seq<char>, Seq<char>)> {
    match split_once(l, seq![':', ' ']) {
        Some((k, v)) => Some((trim(k), trim(v))),
        None => None,
    }
}

/// The fields of the lines `ls`, in order; lines without `": "` give none.
pub open spec fn fields_of_lines(ls: Seq<Seq<char>>) -> Seq<(Seq<char>, Seq<char>)>
    decreases ls.len(),
{
    if ls.len() == 0 {
        seq![]
    } else {
        let rest = fields_of_lines(ls.drop_last());
        match field_of_line(ls.last()) {
            Some(f) => rest.push(f),
            None => rest,
        }
    }
}

/// The fields of the record `data`, in the order of its lines.
pub open spec fn fields(data: Seq<char>) -> Seq<(Seq<char>, Seq<char>)> {
    fields_of_lines(lines(data))
}

/// The value of the last field named `key` among `fs`: a later line with the
/// same key overrides an earlier one.
pub open spec fn lookup(fs: Seq<(Seq<char>, Seq<char>)>, key: Seq<char>) -> Option<Seq<char>>
    decreases fs.len(),
{
    if fs.len() == 0 {
        None
    } else if fs.last().0 == key {
        Some(fs.last().1)
    } else {
        lookup(fs.drop_last(), key)
    }
}

/// The value of the field `key` of the record `data`.
pub open spec fn field(data: Seq<char>, key: Seq<char>) -> Option<Seq<char>> {
    lookup(fields(data), key)
}

/// The value of the field `key`, or the empty text when there is none.
pub open spec fn text_field(data: Seq<char>, key: Seq<char>) -> Seq<char> {
    match field(data, key) {
        Some(v) => v,
        None => seq![],
    }
}

/// The value of the field `key` cut at each `sep`; no items when there is no
/// such field.
pub open spec fn list_field(data: Seq<char>, key: Seq<char>, sep: Seq<char>) -> Seq<Seq<char>> {
    match field(data, key) {
        Some(v) => split(v, sep),
        None => seq![],
    }
}

/// The whitespace-separated words of the field `key`; none when there is no
/// such field.
pub open spec fn words_field(data: Seq<char>, key: Seq<char>) -> Seq<Seq<char>> {
    match field(data, key) {
        Some(v) => words(v),
        None => seq![],
    }
}

/// The number that the field `key` spells, or 0 when there is no such field
/// or it is not a number that fits in a `u64`.
pub open spec fn number_field(data: Seq<char>, key: Seq<char>) -> int {
    match field(data, key) {
        Some(v) => match parse_unsigned(v, 0xffff_ffff_ffff_ffff) {
            Some(n) => n,
            None => 0,
        },
        None => 0,
    }
}

/// The key/value views of parsed fields.
pub open spec fn field_views(v: Seq<(Vec<char>, Vec<char>)>) -> Seq<(Seq<char>, Seq<char>)> {
    v.map_values(|e: (Vec<char>, Vec<char>)| (e.0@, e.1@))
}

/// The text views of a sequence of strings.
pub open spec fn string_views(v: Seq<String>) -> Seq<Seq<char>> {
    v.map_values(|s: String| s@)
}

/// The fields of `data`, in order.
pub fn parse_fields(data: &str) -> (r: Vec<(Vec<char>, Vec<char>)>)
    ensures
        field_views(r@) == fields(data@),
{
    let chars = chars_of(data);
    let ls = lines_chars(chars.as_slice());
    let sep = chars_of(": ");
    proof {
        reveal_strlit(": ");
        assert(sep@ =~= seq![':', ' ']);
    }
    let ghost lv = char_views(ls@);
    let mut r: Vec<(Vec<char>, Vec<char>)> = Vec::new();
    let mut i: usize = 0;
    while i < ls.len()
        invariant
            i <= ls@.len(),
            lv == char_views(ls@),
            lv == lines(data@),
            sep@ == seq![':', ' '],
            field_views(r@) == fields_of_lines(lv.take(i as int)),
        decreases ls@.len() - i,
    {
        proof {
            assert(lv.take(i + 1).drop_last() =~= lv.take(i as int));
            assert(lv.take(i + 1).last() == ls@[i as int]@);
        }
        match split_once_chars(ls[i].as_slice(), sep.as_slice()) {
            Some((k, v)) => {
                let kt = trim_chars(k.as_slice());
                let vt = trim_chars(v.as_slice());
                let ghost old_r = field_views(r@);
                r.push((kt, vt));
                proof {
                    assert(field_views(r@) =~= old_r.push((kt@, vt@)));
                }
            },
            None => {},
        }
        i += 1;
    }
    proof {
        assert(lv.take(i as int) =~= lv);
    }
    r
}

/// Whether the character sequences `a` and `b` are equal.
pub fn same_chars(a: &[char], b: &[char]) -> (r: bool)
    ensures
        r == (a@ == b@),
{
    if a.len() != b.len() {
        return false;
    }
    let mut k: usize = 0;
    while k < a.len()
        invariant
            k <= a@.len() == b@.len(),
            forall|t: int| 0 <= t < k ==> a@[t] == b@[t],
        decreases a@.len() - k,
    {
        if a[k] != b[k] {
            return false;
        }
        k += 1;
    }
    assert(a@ =~= b@);
    true
}

/// The value of the last field named `key` among `fs`.
pub fn lookup_field(fs: &Vec<(Vec<char>, Vec<char>)>, key: &str) -> (r: Option<Vec<char>>)
    ensures
        match r {
            Some(v) => lookup(field_views(fs@), key@) == Some(v@),
            None => lookup(field_views(fs@), key@) is None,
        },
{
    let kc = chars_of(key);
    let ghost fv = field_views(fs@);
    let mut i = fs.len();
    proof {
        assert(fv.take(i as int) =~= fv);
    }
    while i > 0
        invariant
            i <= fs@.len(),
            fv == field_views(fs@),
            kc@ == key@,
            lookup(fv, key@) == lookup(fv.take(i as int), key@),
        decreases i,
    {
        let ghost pre = fv.take(i as int);
        proof {
            assert(pre.drop_last() =~= fv.take(i - 1));
            assert(pre.last() == (fs@[i - 1].0@, fs@[i - 1].1@));
        }
        if same_chars(fs[i - 1].0.as_slice(), kc.as_slice()) {
            let v = copy_range(fs[i - 1].1.as_slice(), 0, fs[i - 1].1.len());
            proof {
                assert(v@ =~= fs@[i - 1].1@);
            }
            return Some(v);
        }
        i -= 1;
    }
    None
}

/// Strings with the characters of each of `v`.
pub fn strings_of(v: &Vec<Vec<char>>) -> (r: Vec<String>)
    ensures
        string_views(r@) == char_views(v@),
{
    let mut r: Vec<String> = Vec::new();
    let mut i: usize = 0;
    while i < v.len()
        invariant
            i <= v@.len(),
            string_views(r@) == char_views(v@).take(i as int),
        decreases v@.len() - i,
    {
        let s = string_of(v[i].as_slice());
        let ghost old_r = string_views(r@);
        r.push(s);
        proof {
            assert(string_views(r@) =~= old_r.push(v@[i as int]@));
            assert(char_views(v@).take(i + 1) =~= char_views(v@).take(i as int).push(
                v@[i as int]@,
            ));
        }
        i += 1;
    }
    assert(char_views(v@).take(i as int) =~= char_views(v@));
    r
}

/// The field `key` of the record whose fields are `fs`, or the empty text.
pub fn text_field_of(fs: &Vec<(Vec<char>, Vec<char>)>, key: &str) -> (r: String)
    ensures
        r@ == match lookup(field_views(fs@), key@) {
            Some(v) => v,
            None => seq![],
        },
{
    match lookup_field(fs, key) {
        Some(v) => string_of(v.as_slice()),
        None => String::new(),
    }
}

/// The field `key` cut at each `sep`, or no items.
pub fn list_field_of(fs: &Vec<(Vec<char>, Vec<char>)>, key: &str, sep: &str) -> (r: Vec<String>)
    requires
        sep@.len() > 0,
    ensures
        string_views(r@) == match lookup(field_views(fs@), key@) {
            Some(v) => split(v, sep@),
            None => seq![],
        },
{
    match lookup_field(fs, key) {
        Some(v) => {
            let sc = chars_of(sep);
            let parts = split_chars(v.as_slice(), sc.as_slice());
            strings_of(&parts)
        },
        None => {
            let r: Vec<String> = Vec::new();
            assert(string_views(r@) =~= Seq::<Seq<char>>::empty());
            r
        },
    }
}

/// The words of the field `key`, or no items.
pub fn words_field_of(fs: &Vec<(Vec<char>, Vec<char>)>, key: &str) -> (r: Vec<String>)
    ensures
        string_views(r@) == match lookup(field_views(fs@), key@) {
            Some(v) => words(v),
            None => seq![],
        },
{
    match lookup_field(fs, key) {
        Some(v) => {
            let parts = words_chars(v.as_slice());
            strings_of(&parts)
        },
        None => {
            let r: Vec<String> = Vec::new();
            assert(string_views(r@) =~= Seq::<Seq<char>>::empty());
            r
        },
    }
}

/// The number that the field `key` spells, or 0.
pub fn number_field_of(fs: &Vec<(Vec<char>, Vec<char>)>, key: &str) -> (r: u64)
    ensures
        r == match lookup(field_views(fs@), key@) {
            Some(v) => match parse_unsigned(v, 0xffff_ffff_ffff_ffff) {
                Some(n) => n,
                None => 0,
            },
            None => 0,
        },
{
    match lookup_field(fs, key) {
        Some(v) => match parse_unsigned_chars(v.as_slice(), 0xffff_ffff_ffff_ffff) {
            Some(n) => n,
            None => 0,
        },
        None => 0,
    }
}

// ---------------------------------------------------------------------
// The order of a record's lines
// ---------------------------------------------------------------------

/// The line `l` is a field with the key `k`.
pub open spec fn line_has_key(l: Seq<char>, k: Seq<char>) -> bool {
    field_of_line(l) matches Some(f) && f.0 == k
}

/// No two field lines of `ls` have the same key.
pub open spec fn keys_unique(ls: Seq<Seq<char>>) -> bool {
    forall|i: int, j: int, k: Seq<char>|
        #![trigger line_has_key(ls[i], k), line_has_key(ls[j], k)]
        0 <= i < j < ls.len() && line_has_key(ls[i], k) ==> !line_has_key(ls[j], k)
}

/// Where every field line of `ls` with the key `k` holds the value `v`, the
/// field `k` is `v` if some line has that key, and missing otherwise.
proof fn lemma_lookup_single_valued(ls: Seq<Seq<char>>, k: Seq<char>, v: Seq<char>)
    requires
        forall|i: int|
            0 <= i < ls.len() && line_has_key(#[trigger] ls[i], k) ==> field_of_line(ls[i]).unwrap().1 == v,
    ensures
        lookup(fields_of_lines(ls), k) == if exists|i: int| 0 <= i < ls.len() && line_has_key(#[trigger] ls[i], k) {
            Some(v)
        } else {
            None::<Seq<char>>
        },
    decreases ls.len(),
{
    if ls.len() > 0 {
        let prev = ls.drop_last();
        assert forall|i: int| 0 <= i < prev.len() && line_has_key(#[trigger] prev[i], k) implies field_of_line(
            prev[i],
        ).unwrap().1 == v by {
            assert(prev[i] == ls[i]);
        }
        lemma_lookup_single_valued(prev, k, v);
        let fp = fields_of_lines(prev);
        assert((exists|i: int| 0 <= i < ls.len() && line_has_key(#[trigger] ls[i], k)) == (line_has_key(
            ls.last(),
            k,
        ) || exists|i: int| 0 <= i < prev.len() && line_has_key(#[trigger] prev[i], k))) by {
            if exists|i: int| 0 <= i < ls.len() && line_has_key(#[trigger] ls[i], k) {
                let i = choose|i: int| 0 <= i < ls.len() && line_has_key(#[trigger] ls[i], k);
                if i < prev.len() {
                    assert(prev[i] == ls[i]);
                }
            }
            if exists|i: int| 0 <= i < prev.len() && line_has_key(#[trigger] prev[i], k) {
                let i = choose|i: int| 0 <= i < prev.len() && line_has_key(#[trigger] prev[i], k);
                assert(ls[i] == prev[i]);
            }
            if line_has_key(ls.last(), k) {
                assert(line_has_key(ls[ls.len() - 1], k));
            }
        }
        match field_of_line(ls.last()) {
            Some(f) => {
                assert(fields_of_lines(ls) == fp.push(f));
                assert(fp.push(f).drop_last() =~= fp);
                if f.0 == k {
                    assert(line_has_key(ls[ls.len() - 1], k));
                }
            },
            None => {},
        }
    }
}

/// Law: when no two field lines of a record have the same key, the order of
/// its lines does not matter: a record made of the same lines in another
/// order has the same fields.
pub proof fn lemma_field_order_free(d1: Seq<char>, d2: Seq<char>)
    requires
        lines(d2).to_multiset() == lines(d1).to_multiset(),
        keys_unique(lines(d1)),
    ensures
        forall|k: Seq<char>| #[trigger] field(d2, k) == field(d1, k),
{
    broadcast use vstd::seq_lib::group_to_multiset_ensures;

    let l1 = lines(d1);
    let l2 = lines(d2);
    assert forall|l: Seq<char>| l2.contains(l) <==> l1.contains(l) by {
        assert(l2.to_multiset().count(l) == l1.to_multiset().count(l));
    }
    assert forall|k: Seq<char>| #[trigger] field(d2, k) == field(d1, k) by {
        if exists|i: int| 0 <= i < l1.len() && line_has_key(#[trigger] l1[i], k) {
            let i0 = choose|i: int| 0 <= i < l1.len() && line_has_key(#[trigger] l1[i], k);
            let v = field_of_line(l1[i0]).unwrap().1;
            assert forall|i: int| 0 <= i < l1.len() && line_has_key(#[trigger] l1[i], k) implies field_of_line(
                l1[i],
            ).unwrap().1 == v by {
                if i != i0 {
                    if i < i0 {
                        assert(!line_has_key(l1[i0], k));
                    } else {
                        assert(!line_has_key(l1[i], k));
                    }
                }
            }
            assert forall|i: int| 0 <= i < l2.len() && line_has_key(#[trigger] l2[i], k) implies field_of_line(
                l2[i],
            ).unwrap().1 == v by {
                assert(l2.contains(l2[i]));
                let j = choose|j: int| 0 <= j < l1.len() && l1[j] == l2[i];
                assert(line_has_key(l1[j], k));
            }
            assert(l1.contains(l1[i0]));
            let j0 = choose|j: int| 0 <= j < l2.len() && l2[j] == l1[i0];
            assert(line_has_key(l2[j0], k));
            lemma_lookup_single_valued(l1, k, v);
            lemma_lookup_single_valued(l2, k, v);
        } else {
            let v = Seq::<char>::empty();
            assert forall|i: int| 0 <= i < l2.len() && line_has_key(#[trigger] l2[i], k) implies field_of_line(
                l2[i],
            ).unwrap().1 == v by {
                assert(l2.contains(l2[i]));
                let j = choose|j: int| 0 <= j < l1.len() && l1[j] == l2[i];
                assert(line_has_key(l1[j], k));
            }
            lemma_lookup_single_valued(l1, k, v);
            lemma_lookup_single_valued(l2, k, v);
            assert forall|i: int| 0 <= i < l2.len() implies !line_has_key(#[trigger] l2[i], k) by {
                if line_has_key(l2[i], k) {
                    assert(l2.contains(l2[i]));
                    let j = choose|j: int| 0 <= j < l1.len() && l1[j] == l2[i];
                    assert(line_has_key(l1[j], k));
                }
            }
        }
    }
}

} // verus!

//! Text handling on sequences of characters: the line, field and list
//! syntax that package descriptions are written in.
use vstd::prelude::*;

verus! {

// ---------------------------------------------------------------------
// Conversions between `str`/`String` and character vectors
// ---------------------------------------------------------------------

/// The characters of `s`, in order (`str::chars`, collected).
#[verifier::external_body]
pub(crate) fn chars_of(s: &str) -> (r: Vec<char>)
    ensures
        r@ == s@,
{
    s.chars().collect()
}

/// A `String` holding exactly the characters of `v` (`String: FromIterator<&char>`).
#[verifier::external_body]
pub(crate) fn string_of(v: &[char]) -> (r: String)
    ensures
        r@ == v@,
{
    v.iter().collect()
}

/// The character sequences held by a sequence of character vectors.
pub open spec fn char_views(v: Seq<Vec<char>>) -> Seq<Seq<char>> {
    v.map_values(|x: Vec<char>| x@)
}

// ---------------------------------------------------------------------
// Whitespace and trimming
// ---------------------------------------------------------------------

/// Unicode `White_Space`, the class that `char::is_whitespace` accepts.
pub open spec fn is_space(c: char) -> bool {
    let u = c as u32;
    ||| 9 <= u <= 13
    ||| u == 32
    ||| u == 0x85
    ||| u == 0xA0
    ||| u == 0x1680
    ||| 0x2000 <= u <= 0x200A
    ||| u == 0x2028
    ||| u == 0x2029
    ||| u == 0x202F
    ||| u == 0x205F
    ||| u == 0x3000
}

pub fn is_space_char(c: char) -> (b: bool)
    ensures
        b == is_space(c),
{
    let u = c as u32;
    (9 <= u && u <= 13) || u == 32 || u == 0x85 || u == 0xA0 || u == 0x1680 || (0x2000 <= u
        && u <= 0x200A) || u == 0x2028 || u == 0x2029 || u == 0x202F || u == 0x205F || u == 0x3000
}

/// `s` without its leading whitespace.
pub open spec fn trim_start(s: Seq<char>) -> Seq<char>
    decreases s.len(),
{
    if s.len() > 0 && is_space(s[0]) {
        trim_start(s.drop_first())
    } else {
        s
    }
}

/// `s` without its trailing whitespace.
pub open spec fn trim_end(s: Seq<char>) -> Seq<char>
    decreases s.len(),
{
    if s.len() > 0 && is_space(s.last()) {
        trim_end(s.drop_last())
    } else {
        s
    }
}

/// `s` without leading and trailing whitespace (`str::trim`).
pub open spec fn trim(s: Seq<char>) -> Seq<char> {
    trim_end(trim_start(s))
}

/// A copy of `s[a..b]`.
pub fn copy_range(s: &[char], a: usize, b: usize) -> (r: Vec<char>)
    requires
        a <= b <= s@.len(),
    ensures
        r@ == s@.subrange(a as int, b as int),
{
    let mut r: Vec<char> = Vec::new();
    let mut i = a;
    while i < b
        invariant
            a <= i <= b <= s@.len(),
            r@ == s@.subrange(a as int, i as int),
        decreases b - i,
    {
        r.push(s[i]);
        proof {
            assert(s@.subrange(a as int, i + 1) =~= s@.subrange(a as int, i as int).push(s@[i as int]));
        }
        i += 1;
    }
    r
}

pub fn trim_chars(s: &[char]) -> (r: Vec<char>)
    ensures
        r@ == trim(s@),
{
    let n = s.len();
    let mut i: usize = 0;
    proof {
        assert(s@.skip(0) =~= s@);
    }
    while i < n && is_space_char(s[i])
        invariant
            i <= n == s@.len(),
            trim_start(s@) == trim_start(s@.skip(i as int)),
        decreases n - i,
    {
        proof {
            assert(s@.skip(i as int).drop_first() =~= s@.skip(i + 1));
        }
        i += 1;
    }
    assert(trim_start(s@) == s@.skip(i as int)) by {
        if i == n {
            assert(s@.skip(i as int).len() == 0);
        }
    }
    let mut j: usize = n;
    while j > i && is_space_char(s[j - 1])
        invariant
            i <= j <= n == s@.len(),
            trim_start(s@) == s@.skip(i as int),
            trim_end(s@.skip(i as int)) == trim_end(s@.subrange(i as int, j as int)),
        decreases j - i,
    {
        proof {
            assert(s@.subrange(i as int, j as int).drop_last() =~= s@.subrange(i as int, j - 1));
        }
        j -= 1;
    }
    proof {
        assert(s@.skip(i as int) =~= s@.subrange(i as int, n as int));
    }
    copy_range(s, i, j)
}

// ---------------------------------------------------------------------
// Searching for a pattern
// ---------------------------------------------------------------------

/// Index of the first occurrence of the (non-empty) pattern `p` in `s`.
pub open spec fn find_sub(s: Seq<char>, p: Seq<char>) -> Option<int>
    decreases s.len(),
{
    if s.len() < p.len() || s.len() == 0 {
        None
    } else if s.take(p.len() as int) == p {
        Some(0)
    } else {
        match find_sub(s.drop_first(), p) {
            Some(k) => Some(k + 1),
            None => None,
        }
    }
}

/// `o` with every index moved `by` places to the right.
pub open spec fn shifted(o: Option<int>, by: int) -> Option<int> {
    match o {
        Some(k) => Some(k + by),
        None => None,
    }
}

pub proof fn lemma_find_sub_bounds(s: Seq<char>, p: Seq<char>)
    ensures
        find_sub(s, p) matches Some(i) ==> {
            &&& 0 <= i
            &&& i + p.len() <= s.len()
            &&& s.subrange(i, i + p.len()) == p
        },
    decreases s.len(),
{
    if s.len() < p.len() || s.len() == 0 {
    } else if s.take(p.len() as int) == p {
        assert(s.subrange(0, p.len() as int) =~= s.take(p.len() as int));
    } else {
        lemma_find_sub_bounds(s.drop_first(), p);
        if let Some(k) = find_sub(s.drop_first(), p) {
            assert(s.subrange(k + 1, k + 1 + p.len()) =~= s.drop_first().subrange(k, k + p.len()));
        }
    }
}

/// No occurrence of `p` in `s` starts before the index `find_sub` reports.
pub proof fn lemma_find_sub_first(s: Seq<char>, p: Seq<char>, j: int)
    requires
        p.len() > 0,
        0 <= j,
        j + p.len() <= s.len(),
        s.subrange(j, j + p.len()) == p,
    ensures
        find_sub(s, p) matches Some(i) && i <= j,
    decreases s.len(),
{
    if s.take(p.len() as int) == p {
    } else {
        if j == 0 {
            assert(s.take(p.len() as int) =~= s.subrange(0, p.len() as int));
        } else {
            assert(s.drop_first().subrange(j - 1, j - 1 + p.len()) =~= s.subrange(j, j + p.len()));
            lemma_find_sub_first(s.drop_first(), p, j - 1);
        }
    }
}

/// Whether `p` occurs in `s` at index `i`.
pub fn matches_at(s: &[char], p: &[char], i: usize) -> (b: bool)
    requires
        i + p@.len() <= s@.len(),
    ensures
        b == (s@.subrange(i as int, i + p@.len()) == p@),
{
    let m = p.len();
    let n = s.len();
    let mut k: usize = 0;
    while k < m
        invariant
            k <= m == p@.len(),
            n == s@.len(),
            i + m <= n,
            forall|t: int| 0 <= t < k ==> s@[i + t] == p@[t],
        decreases m - k,
    {
        if s[i + k] != p[k] {
            assert(s@.subrange(i as int, i + m)[k as int] != p@[k as int]);
            return false;
        }
        k += 1;
    }
    assert(s@.subrange(i as int, i + m) =~= p@);
    true
}

/// The first occurrence of `p` in `s` at or after `start`.
pub fn find_from(s: &[char], p: &[char], start: usize) -> (r: Option<usize>)
    requires
        p@.len() > 0,
        start <= s@.len(),
    ensures
        match r {
            Some(i) => shifted(find_sub(s@.skip(start as int), p@), start as int) == Some(i as int),
            None => find_sub(s@.skip(start as int), p@) is None,
        },
{
    let n = s.len();
    let m = p.len();
    let mut i = start;
    while i < n && m <= n - i
        invariant
            start <= i <= n == s@.len(),
            m == p@.len() > 0,
            shifted(find_sub(s@.skip(start as int), p@), start as int) == shifted(
                find_sub(s@.skip(i as int), p@),
                i as int,
            ),
        decreases n - i,
    {
        let hit = matches_at(s, p, i);
        proof {
            assert(s@.skip(i as int).take(m as int) =~= s@.subrange(i as int, i + m));
            assert(s@.skip(i as int).drop_first() =~= s@.skip(i + 1));
        }
        if hit {
            return Some(i);
        }
        i += 1;
    }
    None
}

/// Whether `p` occurs anywhere in `s` (`str::contains`).
pub open spec fn contains(s: Seq<char>, p: Seq<char>) -> bool {
    exists|i: int| 0 <= i && i + p.len() <= s.len() && #[trigger] s.subrange(i, i + p.len()) == p
}

pub fn contains_chars(s: &[char], p: &[char]) -> (b: bool)
    ensures
        b == contains(s@, p@),
{
    let n = s.len();
    let m = p.len();
    if m > n {
        return false;
    }
    if m == 0 {
        assert(s@.subrange(0int, 0int + p@.len()) =~= p@);
        return true;
    }
    let mut i: usize = 0;
    while i <= n - m
        invariant
            m <= n == s@.len(),
            m == p@.len() > 0,
            i <= n - m + 1,
            forall|j: int| 0 <= j < i ==> #[trigger] s@.subrange(j, j + m) != p@,
        decreases n - m + 1 - i,
    {
        if matches_at(s, p, i) {
            return true;
        }
        i += 1;
    }
    false
}

// ---------------------------------------------------------------------
// Splitting
// ---------------------------------------------------------------------

/// `s` cut at every occurrence of the non-empty pattern `p`, searched from
/// left to right (`str::split` with a string pattern).
pub open spec fn split(s: Seq<char>, p: Seq<char>) -> Seq<Seq<char>>
    decreases s.len(),
{
    if p.len() == 0 {
        seq![s]
    } else {
        match find_sub(s, p) {
            Some(i) => {
                proof {
                    lemma_find_sub_bounds(s, p);
                }
                seq![s.take(i)] + split(s.skip(i + p.len()), p)
            },
            None => seq![s],
        }
    }
}

/// `s` cut at the first occurrence of `p` (`str::split_once`).
pub open spec fn split_once(s: Seq<char>, p: Seq<char>) -> Option<(Seq<char>, Seq<char>)> {
    match find_sub(s, p) {
        Some(i) => Some((s.take(i), s.skip(i + p.len()))),
        None => None,
    }
}

pub proof fn lemma_split_nonempty(s: Seq<char>, p: Seq<char>)
    ensures
        split(s, p).len() >= 1,
    decreases s.len(),
{
    if p.len() > 0 {
        lemma_find_sub_bounds(s, p);
        if let Some(i) = find_sub(s, p) {
            lemma_split_nonempty(s.skip(i + p.len()), p);
        }
    }
}

pub fn split_chars(s: &[char], p: &[char]) -> (r: Vec<Vec<char>>)
    requires
        p@.len() > 0,
    ensures
        char_views(r@) == split(s@, p@),
{
    let n = s.len();
    let mut r: Vec<Vec<char>> = Vec::new();
    let mut pos: usize = 0;
    proof {
        assert(s@.skip(0) =~= s@);
    }
    loop
        invariant
            pos <= n == s@.len(),
            p@.len() > 0,
            char_views(r@) + split(s@.skip(pos as int), p@) == split(s@, p@),
        decreases n - pos,
    {
        let found = find_from(s, p, pos);
        proof {
            lemma_find_sub_bounds(s@.skip(pos as int), p@);
        }
        match found {
            Some(i) => {
                let piece = copy_range(s, pos, i);
                let ghost old_r = char_views(r@);
                proof {
                    let rest = s@.skip(pos as int);
                    let k = i - pos;
                    assert(rest.take(k) =~= s@.subrange(pos as int, i as int));
                    assert(rest.skip(k + p@.len()) =~= s@.skip(i + p@.len()));
                }
                r.push(piece);
                proof {
                    assert(char_views(r@) =~= old_r.push(s@.subrange(pos as int, i as int)));
                    assert(char_views(r@) + split(s@.skip(i + p@.len()), p@) =~= old_r + split(
                        s@.skip(pos as int),
                        p@,
                    ));
                }
                pos = i + p.len();
            },
            None => {
                let piece = copy_range(s, pos, n);
                let ghost old_r = char_views(r@);
                r.push(piece);
                proof {
                    assert(s@.subrange(pos as int, n as int) =~= s@.skip(pos as int));
                    assert(char_views(r@) =~= old_r + split(s@.skip(pos as int), p@));
                }
                return r;
            },
        }
    }
}

pub fn split_once_chars(s: &[char], p: &[char]) -> (r: Option<(Vec<char>, Vec<char>)>)
    requires
        p@.len() > 0,
    ensures
        match r {
            Some((a, b)) => split_once(s@, p@) == Some((a@, b@)),
            None => split_once(s@, p@) is None,
        },
{
    proof {
        assert(s@.skip(0) =~= s@);
        lemma_find_sub_bounds(s@, p@);
    }
    match find_from(s, p, 0) {
        Some(i) => {
            proof {
                assert(find_sub(s@, p@) == Some(i as int));
                lemma_find_sub_bounds(s@, p@);
                assert(i + p@.len() <= s@.len());
            }
            let a = copy_range(s, 0, i);
            let n = s.len();
            let b = copy_range(s, i + p.len(), n);
            proof {
                assert(a@ =~= s@.take(i as int));
                assert(b@ =~= s@.skip(i + p@.len()));
            }
            Some((a, b))
        },
        None => None,
    }
}

/// `s` with the carriage return that ends it, if any, removed.
pub open spec fn strip_cr(l: Seq<char>) -> Seq<char> {
    if l.len() > 0 && l.last() == '\r' {
        l.drop_last()
    } else {
        l
    }
}

/// The lines of `s` (`str::lines`): `s` cut at each `'\n'`, a `'\r'` just
/// before a `'\n'` dropped, and no empty line after a final `'\n'`.
pub open spec fn lines(s: Seq<char>) -> Seq<Seq<char>> {
    let pieces = split(s, seq!['\n']);
    let ended = pieces.drop_last().map_values(|l: Seq<char>| strip_cr(l));
    if pieces.last().len() == 0 {
        ended
    } else {
        ended.push(pieces.last())
    }
}

pub fn strip_cr_chars(l: &[char]) -> (r: Vec<char>)
    ensures
        r@ == strip_cr(l@),
{
    let n = l.len();
    if n > 0 && l[n - 1] == '\r' {
        copy_range(l, 0, n - 1)
    } else {
        copy_range(l, 0, n)
    }
}

pub fn lines_chars(s: &[char]) -> (r: Vec<Vec<char>>)
    ensures
        char_views(r@) == lines(s@),
{
    let nl = vec!['\n'];
    let pieces = split_chars(s, nl.as_slice());
    proof {
        assert(nl@ =~= seq!['\n']);
        lemma_split_nonempty(s@, nl@);
    }
    let ghost ps = char_views(pieces@);
    let count = pieces.len();
    let mut r: Vec<Vec<char>> = Vec::new();
    let mut i: usize = 0;
    while i + 1 < count
        invariant
            count == pieces@.len() >= 1,
            ps == char_views(pieces@),
            i + 1 <= count,
            char_views(r@) == ps.take(i as int).map_values(|l: Seq<char>| strip_cr(l)),
        decreases count - i,
    {
        let line = strip_cr_chars(pieces[i].as_slice());
        let ghost old_r = char_views(r@);
        r.push(line);
        proof {
            assert(ps[i as int] == pieces@[i as int]@);
            assert(ps.take(i + 1).map_values(|l: Seq<char>| strip_cr(l)) =~= ps.take(
                i as int,
            ).map_values(|l: Seq<char>| strip_cr(l)).push(strip_cr(ps[i as int])));
            assert(char_views(r@) =~= old_r.push(strip_cr(ps[i as int])));
        }
        i += 1;
    }
    proof {
        assert(ps.take(i as int) =~= ps.drop_last());
        assert(ps.last() == pieces@[count - 1]@);
    }
    if pieces[count - 1].len() > 0 {
        let last = copy_range(pieces[count - 1].as_slice(), 0, pieces[count - 1].len());
        let ghost old_r = char_views(r@);
        r.push(last);
        proof {
            assert(last@ =~= ps.last());
            assert(char_views(r@) =~= old_r.push(ps.last()));
        }
    }
    r
}

// ---------------------------------------------------------------------
// Words separated by whitespace
// ---------------------------------------------------------------------

/// Length of the run of non-whitespace characters that starts `s`.
pub open spec fn word_end(s: Seq<char>) -> int
    decreases s.len(),
{
    if s.len() == 0 || is_space(s[0]) {
        0
    } else {
        1 + word_end(s.drop_first())
    }
}

pub proof fn lemma_word_end_bounds(s: Seq<char>)
    ensures
        0 <= word_end(s) <= s.len(),
        s.len() > 0 && !is_space(s[0]) ==> word_end(s) >= 1,
        forall|i: int| 0 <= i < word_end(s) ==> !is_space(#[trigger] s[i]),
        word_end(s) < s.len() ==> is_space(s[word_end(s)]),
    decreases s.len(),
{
    if s.len() > 0 && !is_space(s[0]) {
        lemma_word_end_bounds(s.drop_first());
        assert forall|i: int| 0 <= i < word_end(s) implies !is_space(#[trigger] s[i]) by {
            if i > 0 {
                assert(s[i] == s.drop_first()[i - 1]);
            }
        }
    }
}

/// The maximal runs of non-whitespace characters of `s`, in order
/// (`str::split_whitespace`).
pub open spec fn words(s: Seq<char>) -> Seq<Seq<char>>
    decreases s.len(),
{
    if s.len() == 0 {
        seq![]
    } else if is_space(s[0]) {
        words(s.drop_first())
    } else {
        proof {
            lemma_word_end_bounds(s);
        }
        seq![s.take(word_end(s))] + words(s.skip(word_end(s)))
    }
}

pub fn words_chars(s: &[char]) -> (r: Vec<Vec<char>>)
    ensures
        char_views(r@) == words(s@),
{
    let n = s.len();
    let mut r: Vec<Vec<char>> = Vec::new();
    let mut i: usize = 0;
    proof {
        assert(s@.skip(0) =~= s@);
    }
    while i < n
        invariant
            i <= n == s@.len(),
            char_views(r@) + words(s@.skip(i as int)) == words(s@),
        decreases n - i,
    {
        if is_space_char(s[i]) {
            proof {
                assert(s@.skip(i as int).drop_first() =~= s@.skip(i + 1));
            }
            i += 1;
        } else {
            let mut j = i + 1;
            let ghost rest = s@.skip(i as int);
            proof {
                lemma_word_end_bounds(rest);
            }
            while j < n && !is_space_char(s[j])
                invariant
                    i < j <= n == s@.len(),
                    rest == s@.skip(i as int),
                    !is_space(rest[0]),
                    j - i <= word_end(rest),
                    forall|t: int| 0 <= t < word_end(rest) ==> !is_space(#[trigger] rest[t]),
                    word_end(rest) < rest.len() ==> is_space(rest[word_end(rest)]),
                    0 <= word_end(rest) <= rest.len(),
                decreases n - j,
            {
                proof {
                    if j - i == word_end(rest) {
                        assert(rest[j - i] == s@[j as int]);
                    }
                }
                j += 1;
            }
            proof {
                if j < n {
                    assert(rest[j - i] == s@[j as int]);
                }
                assert(j - i == word_end(rest));
            }
            let w = copy_range(s, i, j);
            let ghost old_r = char_views(r@);
            r.push(w);
            proof {
                assert(rest.take(word_end(rest)) =~= w@);
                assert(rest.skip(word_end(rest)) =~= s@.skip(j as int));
                assert(char_views(r@) =~= old_r.push(w@));
                assert(char_views(r@) + words(s@.skip(j as int)) =~= old_r + words(rest));
            }
            i = j;
        }
    }
    proof {
        assert(char_views(r@) + words(s@.skip(i as int)) =~= char_views(r@));
    }
    r
}

// ---------------------------------------------------------------------
// Numbers
// ---------------------------------------------------------------------

pub open spec fn is_digit(c: char) -> bool {
    48 <= (c as u32) <= 57
}

pub open spec fn digit_value(c: char) -> int {
    (c as u32) - 48
}

/// The number that the decimal digits `d` spell.
pub open spec fn digits_value(d: Seq<char>) -> int
    decreases d.len(),
{
    if d.len() == 0 {
        0
    } else {
        digits_value(d.drop_last()) * 10 + digit_value(d.last())
    }
}

pub open spec fn all_digits(d: Seq<char>) -> bool {
    forall|i: int| 0 <= i < d.len() ==> is_digit(#[trigger] d[i])
}

/// The unsigned number that `s` spells, if it is one no larger than `max`
/// (`str::parse` for unsigned integer types: an optional `+`, then at least
/// one decimal digit).
pub open spec fn parse_unsigned(s: Seq<char>, max: int) -> Option<int> {
    let d = if s.len() > 0 && s[0] == '+' {
        s.drop_first()
    } else {
        s
    };
    if d.len() > 0 && all_digits(d) && digits_value(d) <= max {
        Some(digits_value(d))
    } else {
        None
    }
}

/// The `i32` that `s` spells (`str::parse::<i32>`: an optional sign, then at
/// least one decimal digit, within range).
pub open spec fn parse_i32(s: Seq<char>) -> Option<int> {
    if s.len() > 0 && s[0] == '-' {
        let d = s.drop_first();
        if d.len() > 0 && all_digits(d) && digits_value(d) <= 0x8000_0000 {
            Some(-digits_value(d))
        } else {
            None
        }
    } else {
        parse_unsigned(s, 0x7fff_ffff)
    }
}

pub proof fn lemma_digits_value_prefix(d: Seq<char>, k: int)
    requires
        0 <= k <= d.len(),
        all_digits(d),
    ensures
        0 <= digits_value(d.take(k)) <= digits_value(d),
    decreases d.len() - k,
{
    if k == d.len() {
        assert(d.take(k) =~= d);
        lemma_digits_value_nonneg(d);
    } else {
        lemma_digits_value_prefix(d, k + 1);
        assert(d.take(k + 1).drop_last() =~= d.take(k));
        lemma_digits_value_nonneg(d.take(k));
    }
}

pub proof fn lemma_digits_value_nonneg(d: Seq<char>)
    requires
        all_digits(d),
    ensures
        digits_value(d) >= 0,
    decreases d.len(),
{
    if d.len() > 0 {
        assert(all_digits(d.drop_last())) by {
            assert forall|i: int| 0 <= i < d.drop_last().len() implies is_digit(
                #[trigger] d.drop_last()[i],
            ) by {
                assert(d.drop_last()[i] == d[i]);
            }
        }
        lemma_digits_value_nonneg(d.drop_last());
        assert(is_digit(d[d.len() - 1]));
    }
}

/// The value of the digits `s[from..]`, if they are all digits, there is at
/// least one, and the value is at most `max`.
fn digits_at_most(s: &[char], from: usize, max: u64) -> (r: Option<u64>)
    requires
        from <= s@.len(),
    ensures
        ({
            let d = s@.skip(from as int);
            match r {
                Some(v) => d.len() > 0 && all_digits(d) && digits_value(d) <= max && v
                    == digits_value(d),
                None => !(d.len() > 0 && all_digits(d) && digits_value(d) <= max),
            }
        }),
{
    let n = s.len();
    let ghost d = s@.skip(from as int);
    if from == n {
        return None;
    }
    let mut acc: u128 = 0;
    let mut i = from;
    proof {
        assert(d.take(0) =~= Seq::<char>::empty());
    }
    while i < n
        invariant
            from <= i <= n == s@.len(),
            d == s@.skip(from as int),
            acc <= max,
            all_digits(d.take(i - from)),
            acc == digits_value(d.take(i - from)),
        decreases n - i,
    {
        let c = s[i];
        let u = c as u32;
        if u < 48 || u > 57 {
            assert(!is_digit(d[i - from]));
            return None;
        }
        proof {
            assert(d.take(i - from + 1).drop_last() =~= d.take(i - from));
            assert(d.take(i - from + 1).last() == c);
        }
        acc = acc * 10 + (u - 48) as u128;
        if acc > max as u128 {
            proof {
                if all_digits(d) {
                    lemma_digits_value_prefix(d, i - from + 1);
                }
            }
            return None;
        }
        proof {
            assert forall|t: int| 0 <= t < i - from + 1 implies is_digit(
                #[trigger] d.take(i - from + 1)[t],
            ) by {
                if t < i - from {
                    assert(d.take(i - from + 1)[t] == d.take(i - from)[t]);
                }
            }
        }
        i += 1;
    }
    proof {
        assert(d.take(i - from) =~= d);
    }
    Some(acc as u64)
}

/// `parse_unsigned`, computed, for a bound that fits in `u64`.
pub fn parse_unsigned_chars(s: &[char], max: u64) -> (r: Option<u64>)
    ensures
        match r {
            Some(v) => parse_unsigned(s@, max as int) == Some(v as int),
            None => parse_unsigned(s@, max as int) is None,
        },
{
    if s.len() > 0 && s[0] == '+' {
        proof {
            assert(s@.skip(1) =~= s@.drop_first());
        }
        digits_at_most(s, 1, max)
    } else {
        proof {
            assert(s@.skip(0) =~= s@);
        }
        digits_at_most(s, 0, max)
    }
}

/// `parse_i32`, computed.
pub fn parse_i32_chars(s: &[char]) -> (r: Option<i32>)
    ensures
        match r {
            Some(v) => parse_i32(s@) == Some(v as int),
            None => parse_i32(s@) is None,
        },
{
    if s.len() > 0 && s[0] == '-' {
        proof {
            assert(s@.skip(1) =~= s@.drop_first());
        }
        match digits_at_most(s, 1, 0x8000_0000) {
            Some(v) => {
                let w: i64 = -(v as i64);
                Some(w as i32)
            },
            None => None,
        }
    } else {
        match parse_unsigned_chars(s, 0x7fff_ffff) {
            Some(v) => Some(v as i32),
            None => None,
        }
    }
}

/// The character of the decimal digit `d` (`0 <= d < 10`).
pub open spec fn digit_char(d: int) -> char {
    if d == 0 {
        '0'
    } else if d == 1 {
        '1'
    } else if d == 2 {
        '2'
    } else if d == 3 {
        '3'
    } else if d == 4 {
        '4'
    } else if d == 5 {
        '5'
    } else if d == 6 {
        '6'
    } else if d == 7 {
        '7'
    } else if d == 8 {
        '8'
    } else {
        '9'
    }
}

fn digit_char_exec(d: u64) -> (c: char)
    requires
        d < 10,
    ensures
        c == digit_char(d as int),
{
    if d == 0 {
        '0'
    } else if d == 1 {
        '1'
    } else if d == 2 {
        '2'
    } else if d == 3 {
        '3'
    } else if d == 4 {
        '4'
    } else if d == 5 {
        '5'
    } else if d == 6 {
        '6'
    } else if d == 7 {
        '7'
    } else if d == 8 {
        '8'
    } else {
        '9'
    }
}

/// The decimal notation of `n`, without leading zeros (`ToString` for integers).
pub open spec fn decimal(n: nat) -> Seq<char>
    decreases n,
{
    if n < 10 {
        seq![digit_char(n as int)]
    } else {
        decimal(n / 10).push(digit_char((n % 10) as int))
    }
}

/// The decimal notation of the integer `v`, with a leading `-` if negative.
pub open spec fn int_text(v: int) -> Seq<char> {
    if v < 0 {
        seq!['-'] + decimal((-v) as nat)
    } else {
        decimal(v as nat)
    }
}

pub fn decimal_chars(n: u64) -> (r: Vec<char>)
    ensures
        r@ == decimal(n as nat),
    decreases n,
{
    if n < 10 {
        let r = vec![digit_char_exec(n)];
        assert(r@ =~= seq![digit_char(n as int)]);
        r
    } else {
        let mut r = decimal_chars(n / 10);
        r.push(digit_char_exec(n % 10));
        r
    }
}

pub fn int_text_chars(v: i32) -> (r: Vec<char>)
    ensures
        r@ == int_text(v as int),
{
    if v < 0 {
        let m: u64 = (-(v as i64)) as u64;
        let digits = decimal_chars(m);
        let mut r = vec!['-'];
        let mut k: usize = 0;
        while k < digits.len()
            invariant
                k <= digits@.len(),
                r@ == seq!['-'] + digits@.take(k as int),
            decreases digits@.len() - k,
        {
            r.push(digits[k]);
            proof {
                assert(seq!['-'] + digits@.take(k + 1) =~= (seq!['-'] + digits@.take(
                    k as int,
                )).push(digits@[k as int]));
            }
            k += 1;
        }
        assert(digits@.take(k as int) =~= digits@);
        r
    } else {
        decimal_chars(v as u64)
    }
}

// ---------------------------------------------------------------------
// Joining and replacing
// ---------------------------------------------------------------------

/// The pieces `ps` with `sep` between each two of them.
pub open spec fn join(ps: Seq<Seq<char>>, sep: Seq<char>) -> Seq<char>
    decreases ps.len(),
{
    if ps.len() == 0 {
        seq![]
    } else if ps.len() == 1 {
        ps[0]
    } else {
        join(ps.drop_last(), sep) + sep + ps.last()
    }
}

/// `s` with every occurrence of the non-empty `from`, searched from left to
/// right, replaced by `to` (`str::replace`).
pub open spec fn replace(s: Seq<char>, from: Seq<char>, to: Seq<char>) -> Seq<char> {
    join(split(s, from), to)
}

/// Appends the characters of `t` to `acc`.
pub fn append_chars(acc: &mut Vec<char>, t: &[char])
    ensures
        final(acc)@ == old(acc)@ + t@,
{
    let mut k: usize = 0;
    while k < t.len()
        invariant
            k <= t@.len(),
            acc@ == old(acc)@ + t@.take(k as int),
        decreases t@.len() - k,
    {
        acc.push(t[k]);
        proof {
            assert(old(acc)@ + t@.take(k + 1) =~= (old(acc)@ + t@.take(k as int)).push(t@[k as int]));
        }
        k += 1;
    }
    assert(t@.take(k as int) =~= t@);
}

pub fn join_chars(ps: &Vec<Vec<char>>, sep: &[char]) -> (r: Vec<char>)
    ensures
        r@ == join(char_views(ps@), sep@),
{
    let ghost pv = char_views(ps@);
    let mut r: Vec<char> = Vec::new();
    let mut i: usize = 0;
    while i < ps.len()
        invariant
            i <= ps@.len(),
            pv == char_views(ps@),
            r@ == join(pv.take(i as int), sep@),
        decreases ps@.len() - i,
    {
        proof {
            assert(pv[i as int] == ps@[i as int]@);
            assert(pv.take(i + 1).drop_last() =~= pv.take(i as int));
        }
        if i > 0 {
            append_chars(&mut r, sep);
        }
        append_chars(&mut r, ps[i].as_slice());
        proof {
            if i == 0 {
                assert(r@ =~= pv.take(1)[0]);
            }
        }
        i += 1;
    }
    assert(pv.take(i as int) =~= pv);
    r
}

pub fn replace_chars(s: &[char], from: &[char], to: &[char]) -> (r: Vec<char>)
    requires
        from@.len() > 0,
    ensures
        r@ == replace(s@, from@, to@),
{
    let pieces = split_chars(s, from);
    join_chars(&pieces, to)
}

// ---------------------------------------------------------------------
// Letter case
// ---------------------------------------------------------------------

/// The lowercase form of `s` by Unicode's case mapping.
pub uninterp spec fn lowercase(s: Seq<char>) -> Seq<char>;

/// `str::to_lowercase`. Claimed: the result is `lowercase(s)`, a function of
/// the text alone (the full Unicode lowercase mapping; the mapping of a
/// capital sigma depends on its neighbours, which `lowercase` also sees).
#[verifier::external_body]
pub(crate) fn to_lowercase(s: &str) -> (r: String)
    ensures
        r@ == lowercase(s@),
{
    s.to_lowercase()
}

} // verus!

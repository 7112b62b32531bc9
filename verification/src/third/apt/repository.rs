//! apt repositories: their release files, where their package indexes lie,
//! and reading those indexes.
use super::package::{apt_record_fields, AptPackageInfo};
use crate::control::{
    parse_fields, string_views, text_field, text_field_of, words_field, words_field_of,
};
use crate::text::{append_chars, char_views, chars_of, split, split_chars, string_of};
use vstd::prelude::*;

verus! {

/// The release file of an apt repository suite.
#[derive(Debug, PartialEq)]
pub struct AptReleaseInfo {
    pub hash: String,
    pub origin: String,
    pub label: String,
    pub suite: String,
    pub version: String,
    pub codename: String,
    pub date: String,
    pub architectures: Vec<String>,
    pub components: Vec<String>,
    pub description: String,
}

/// Whether `info` holds the fields of the release file `data`.
pub open spec fn release_fields(info: AptReleaseInfo, data: Seq<char>) -> bool {
    &&& info.hash@ == text_field(data, "Hash"@)
    &&& info.origin@ == text_field(data, "Origin"@)
    &&& info.label@ == text_field(data, "Label"@)
    &&& info.suite@ == text_field(data, "Suite"@)
    &&& info.version@ == text_field(data, "Version"@)
    &&& info.codename@ == text_field(data, "Codename"@)
    &&& info.date@ == text_field(data, "Date"@)
    &&& string_views(info.architectures@) == words_field(data, "Architectures"@)
    &&& string_views(info.components@) == words_field(data, "Components"@)
    &&& info.description@ == text_field(data, "Description"@)
}

impl AptReleaseInfo {
    /// Reads a `Release` file: `Key: value` fields, one per line; the
    /// architectures and components are whitespace-separated lists.
    pub fn from_string(data: &str) -> (r: Result<Self, String>)
        ensures
            r matches Ok(info) && release_fields(info, data@),
    {
        let fs = parse_fields(data);
        let hash = text_field_of(&fs, "Hash");
        let origin = text_field_of(&fs, "Origin");
        let label = text_field_of(&fs, "Label");
        let suite = text_field_of(&fs, "Suite");
        let version = text_field_of(&fs, "Version");
        let codename = text_field_of(&fs, "Codename");
        let date = text_field_of(&fs, "Date");
        let architectures = words_field_of(&fs, "Architectures");
        let components = words_field_of(&fs, "Components");
        let description = text_field_of(&fs, "Description");
        Ok(AptReleaseInfo {
            hash,
            origin,
            label,
            suite,
            version,
            codename,
            date,
            architectures,
            components,
            description,
        })
    }
}

/// Where an apt repository lies and which of its parts to read.
pub struct AptRepositoryInfo {
    pub name: String,
    pub url: String,
    pub suites: Vec<String>,
    pub components: Vec<String>,
    pub architectures: Vec<String>,
    pub signed_by: String,
    pub options: Vec<String>,
}

/// The address of the compressed package index of one suite, component and
/// architecture of the repository at `url`.
pub open spec fn index_url(url: Seq<char>, suite: Seq<char>, component: Seq<char>, arch: Seq<char>) -> Seq<char> {
    url + "/dists/"@ + suite + "/"@ + component + "/binary-"@ + arch + "/Packages.gz"@
}

/// The index addresses of `suite` for the components `comps` and the
/// architectures `archs`, components outermost.
pub open spec fn suite_index_urls(url: Seq<char>, suite: Seq<char>, comps: Seq<Seq<char>>, archs: Seq<Seq<char>>) -> Seq<Seq<char>>
    decreases comps.len(),
{
    if comps.len() == 0 {
        seq![]
    } else {
        suite_index_urls(url, suite, comps.drop_last(), archs) + archs.map_values(
            |a: Seq<char>| index_url(url, suite, comps.last(), a),
        )
    }
}

/// The index addresses for every suite, component and architecture, in that
/// nesting order.
pub open spec fn index_urls(url: Seq<char>, suites: Seq<Seq<char>>, comps: Seq<Seq<char>>, archs: Seq<Seq<char>>) -> Seq<Seq<char>>
    decreases suites.len(),
{
    if suites.len() == 0 {
        seq![]
    } else {
        index_urls(url, suites.drop_last(), comps, archs) + suite_index_urls(
            url,
            suites.last(),
            comps,
            archs,
        )
    }
}

proof fn lemma_suite_index_urls(url: Seq<char>, suite: Seq<char>, cs: Seq<Seq<char>>, xs: Seq<Seq<char>>)
    ensures
        suite_index_urls(url, suite, cs, xs).len() == cs.len() * xs.len(),
        forall|j: int, k: int|
            0 <= j < cs.len() && 0 <= k < xs.len() ==> #[trigger] suite_index_urls(url, suite, cs, xs)[j
                * xs.len() + k] == url + "/dists/"@ + suite + "/"@ + cs[j] + "/binary-"@ + xs[k]
                + "/Packages.gz"@,
    decreases cs.len(),
{
    let m = xs.len();
    if cs.len() > 0 {
        let prev = cs.drop_last();
        let n = cs.len();
        lemma_suite_index_urls(url, suite, prev, xs);
        let sp = suite_index_urls(url, suite, prev, xs);
        let tail = xs.map_values(|a: Seq<char>| index_url(url, suite, cs.last(), a));
        let su = suite_index_urls(url, suite, cs, xs);
        assert(su == sp + tail);
        assert((n - 1) * m + m == n * m) by (nonlinear_arith);
        assert forall|j: int, k: int| 0 <= j < cs.len() && 0 <= k < xs.len() implies #[trigger] su[j * m + k]
            == url + "/dists/"@ + suite + "/"@ + cs[j] + "/binary-"@ + xs[k] + "/Packages.gz"@ by {
            if j < n - 1 {
                assert(j * m + k < (n - 1) * m) by (nonlinear_arith)
                    requires
                        0 <= j < n - 1,
                        0 <= k < m,
                ;
                assert(0 <= j * m) by (nonlinear_arith)
                    requires
                        0 <= j,
                        0 <= m,
                ;
                assert(su[j * m + k] == sp[j * m + k]);
                assert(prev[j] == cs[j]);
            } else {
                assert(j * m + k - sp.len() == k);
                assert(su[j * m + k] == tail[k]);
            }
        }
    }
}

/// Law: the index addresses of a repository are one for every suite,
/// component and architecture, suites outermost and architectures
/// innermost: `url/dists/<suite>/<component>/binary-<arch>/Packages.gz`.
pub proof fn lemma_index_urls(url: Seq<char>, ss: Seq<Seq<char>>, cs: Seq<Seq<char>>, xs: Seq<Seq<char>>)
    ensures
        index_urls(url, ss, cs, xs).len() == ss.len() * cs.len() * xs.len(),
        forall|i: int, j: int, k: int|
            0 <= i < ss.len() && 0 <= j < cs.len() && 0 <= k < xs.len() ==> #[trigger] index_urls(
                url,
                ss,
                cs,
                xs,
            )[(i * cs.len() + j) * xs.len() + k] == url + "/dists/"@ + ss[i] + "/"@ + cs[j]
                + "/binary-"@ + xs[k] + "/Packages.gz"@,
    decreases ss.len(),
{
    let m = xs.len();
    let c = cs.len();
    if ss.len() > 0 {
        let prev = ss.drop_last();
        let n = ss.len();
        lemma_index_urls(url, prev, cs, xs);
        lemma_suite_index_urls(url, ss.last(), cs, xs);
        let ip = index_urls(url, prev, cs, xs);
        let tail = suite_index_urls(url, ss.last(), cs, xs);
        let iu = index_urls(url, ss, cs, xs);
        assert(iu == ip + tail);
        assert((n - 1) * c * m + c * m == n * c * m) by (nonlinear_arith);
        assert forall|i: int, j: int, k: int|
            0 <= i < ss.len() && 0 <= j < cs.len() && 0 <= k < xs.len() implies #[trigger] iu[(i * c + j)
                * m + k] == url + "/dists/"@ + ss[i] + "/"@ + cs[j] + "/binary-"@ + xs[k]
                + "/Packages.gz"@ by {
            assert((i * c + j) * m + k == i * c * m + (j * m + k)) by (nonlinear_arith);
            assert(0 <= j * m + k < c * m) by (nonlinear_arith)
                requires
                    0 <= j < c,
                    0 <= k < m,
            ;
            if i < n - 1 {
                assert((i * c + j) * m + k < (n - 1) * c * m) by (nonlinear_arith)
                    requires
                        0 <= i < n - 1,
                        0 <= j < c,
                        0 <= k < m,
                ;
                assert(0 <= (i * c + j) * m + k) by (nonlinear_arith)
                    requires
                        0 <= i,
                        0 <= j,
                        0 <= k,
                        0 <= c,
                        0 <= m,
                ;
                assert(iu[(i * c + j) * m + k] == ip[(i * c + j) * m + k]);
                assert(prev[i] == ss[i]);
            } else {
                assert((i * c + j) * m + k - ip.len() == j * m + k);
                assert(iu[(i * c + j) * m + k] == tail[j * m + k]);
            }
        }
    } else {
        assert(0 * c * m == 0) by (nonlinear_arith);
    }
}

fn index_url_of(url: &String, suite: &String, component: &String, arch: &String) -> (r: String)
    ensures
        r@ == index_url(url@, suite@, component@, arch@),
{
    let mut acc: Vec<char> = Vec::new();
    append_chars(&mut acc, chars_of(url.as_str()).as_slice());
    append_chars(&mut acc, chars_of("/dists/").as_slice());
    append_chars(&mut acc, chars_of(suite.as_str()).as_slice());
    append_chars(&mut acc, chars_of("/").as_slice());
    append_chars(&mut acc, chars_of(component.as_str()).as_slice());
    append_chars(&mut acc, chars_of("/binary-").as_slice());
    append_chars(&mut acc, chars_of(arch.as_str()).as_slice());
    append_chars(&mut acc, chars_of("/Packages.gz").as_slice());
    assert(acc@ =~= index_url(url@, suite@, component@, arch@));
    string_of(acc.as_slice())
}

impl AptRepositoryInfo {
    /// The addresses of the compressed package indexes to fetch: one per
    /// suite, component and architecture.
    pub fn package_index_urls(&self) -> (r: Vec<String>)
        ensures
            string_views(r@) == index_urls(
                self.url@,
                string_views(self.suites@),
                string_views(self.components@),
                string_views(self.architectures@),
            ),
            r@.len() == self.suites@.len() * self.components@.len() * self.architectures@.len(),
            forall|i: int, j: int, k: int|
                0 <= i < self.suites@.len() && 0 <= j < self.components@.len() && 0 <= k
                    < self.architectures@.len() ==> #[trigger] r@[(i * self.components@.len() + j)
                    * self.architectures@.len() + k]@ == self.url@ + "/dists/"@ + self.suites@[i]@
                    + "/"@ + self.components@[j]@ + "/binary-"@ + self.architectures@[k]@
                    + "/Packages.gz"@,
    {
        let r = self.index_urls_in_order();
        proof {
            let ss = string_views(self.suites@);
            let cs = string_views(self.components@);
            let xs = string_views(self.architectures@);
            lemma_index_urls(self.url@, ss, cs, xs);
            assert forall|i: int, j: int, k: int|
                0 <= i < self.suites@.len() && 0 <= j < self.components@.len() && 0 <= k
                    < self.architectures@.len() implies #[trigger] r@[(i * self.components@.len() + j)
                    * self.architectures@.len() + k]@ == self.url@ + "/dists/"@ + self.suites@[i]@
                    + "/"@ + self.components@[j]@ + "/binary-"@ + self.architectures@[k]@
                    + "/Packages.gz"@ by {
                let w = (i * cs.len() + j) * xs.len() + k;
                let (a, b, c) = (ss.len() as int, cs.len() as int, xs.len() as int);
                assert(0 <= (i * b + j) * c + k < a * b * c) by (nonlinear_arith)
                    requires
                        0 <= i < a,
                        0 <= j < b,
                        0 <= k < c,
                ;
                assert(string_views(r@)[w] == r@[w]@);
                assert(ss[i] == self.suites@[i]@);
                assert(cs[j] == self.components@[j]@);
                assert(xs[k] == self.architectures@[k]@);
            }
        }
        r
    }

    fn index_urls_in_order(&self) -> (r: Vec<String>)
        ensures
            string_views(r@) == index_urls(
                self.url@,
                string_views(self.suites@),
                string_views(self.components@),
                string_views(self.architectures@),
            ),
    {
        let ghost ss = string_views(self.suites@);
        let ghost cs = string_views(self.components@);
        let ghost xs = string_views(self.architectures@);
        let mut r: Vec<String> = Vec::new();
        let mut i: usize = 0;
        while i < self.suites.len()
            invariant
                i <= self.suites@.len(),
                ss == string_views(self.suites@),
                cs == string_views(self.components@),
                xs == string_views(self.architectures@),
                string_views(r@) == index_urls(self.url@, ss.take(i as int), cs, xs),
            decreases self.suites@.len() - i,
        {
            let ghost before = string_views(r@);
            let mut j: usize = 0;
            while j < self.components.len()
                invariant
                    i < self.suites@.len(),
                    j <= self.components@.len(),
                    ss == string_views(self.suites@),
                    cs == string_views(self.components@),
                    xs == string_views(self.architectures@),
                    string_views(r@) == before + suite_index_urls(
                        self.url@,
                        ss[i as int],
                        cs.take(j as int),
                        xs,
                    ),
                decreases self.components@.len() - j,
            {
                let ghost before_c = string_views(r@);
                let mut k: usize = 0;
                while k < self.architectures.len()
                    invariant
                        i < self.suites@.len(),
                        j < self.components@.len(),
                        k <= self.architectures@.len(),
                        ss == string_views(self.suites@),
                        cs == string_views(self.components@),
                        xs == string_views(self.architectures@),
                        string_views(r@) == before_c + xs.take(k as int).map_values(
                            |a: Seq<char>| index_url(self.url@, ss[i as int], cs[j as int], a),
                        ),
                    decreases self.architectures@.len() - k,
                {
                    let u = index_url_of(
                        &self.url,
                        &self.suites[i],
                        &self.components[j],
                        &self.architectures[k],
                    );
                    let ghost old_r = string_views(r@);
                    r.push(u);
                    proof {
                        assert(string_views(r@) =~= old_r.push(u@));
                        assert(xs.take(k + 1).map_values(
                            |a: Seq<char>| index_url(self.url@, ss[i as int], cs[j as int], a),
                        ) =~= xs.take(k as int).map_values(
                            |a: Seq<char>| index_url(self.url@, ss[i as int], cs[j as int], a),
                        ).push(u@));
                    }
                    k += 1;
                }
                proof {
                    assert(xs.take(k as int) =~= xs);
                    assert(cs.take(j + 1).drop_last() =~= cs.take(j as int));
                    assert(cs.take(j + 1).last() == cs[j as int]);
                    assert(string_views(r@) =~= before + suite_index_urls(
                        self.url@,
                        ss[i as int],
                        cs.take(j + 1),
                        xs,
                    ));
                }
                j += 1;
            }
            proof {
                assert(cs.take(j as int) =~= cs);
                assert(ss.take(i + 1).drop_last() =~= ss.take(i as int));
                assert(ss.take(i + 1).last() == ss[i as int]);
            }
            i += 1;
        }
        proof {
            assert(ss.take(i as int) =~= ss);
        }
        r
    }
}

/// The text that the gzip stream `data` decompresses to, when it is a valid
/// stream of UTF-8 text.
pub uninterp spec fn gzip_text(data: Seq<u8>) -> Option<Seq<char>>;

/// Decompresses the gzip stream `data` (flate2's `GzDecoder`, read to a
/// string). Claimed: the text is `gzip_text(data)`, a function of the bytes
/// alone, and `None` comes exactly when that is undefined (a corrupt stream or
/// text that is not UTF-8).
#[verifier::external_body]
fn gunzip_text(data: &[u8]) -> (r: Option<String>)
    ensures
        match r {
            Some(s) => gzip_text(data@) == Some(s@),
            None => gzip_text(data@) is None,
        },
{
    let mut decoder = flate2::read::GzDecoder::new(data);
    let mut text = String::new();
    match std::io::Read::read_to_string(&mut decoder, &mut text) {
        Ok(_) => Some(text),
        Err(_) => None,
    }
}

/// The bytes of each archive.
pub open spec fn byte_views(v: Seq<Vec<u8>>) -> Seq<Seq<u8>> {
    v.map_values(|a: Vec<u8>| a@)
}

/// The index text gathered from fetched archives: each one that decompresses
/// contributes its text and a line break; the others contribute nothing.
pub open spec fn index_text(archives: Seq<Seq<u8>>) -> Seq<char>
    decreases archives.len(),
{
    if archives.len() == 0 {
        seq![]
    } else {
        index_text(archives.drop_last()) + match gzip_text(archives.last()) {
            Some(t) => t + seq!['\n'],
            None => seq![],
        }
    }
}

/// Decompresses every fetched archive and joins their texts. The second
/// result tells, for each archive, whether it could be decompressed.
pub fn collect_index_text(archives: &Vec<Vec<u8>>) -> (r: (String, Vec<bool>))
    ensures
        r.0@ == index_text(byte_views(archives@)),
        r.1@.len() == archives@.len(),
        forall|i: int| 0 <= i < archives@.len() ==> r.1@[i] == (gzip_text(archives@[i]@) is Some),
{
    let ghost bv = byte_views(archives@);
    let mut acc: Vec<char> = Vec::new();
    let mut ok: Vec<bool> = Vec::new();
    let mut i: usize = 0;
    while i < archives.len()
        invariant
            i <= archives@.len(),
            bv == byte_views(archives@),
            acc@ == index_text(bv.take(i as int)),
            ok@.len() == i,
            forall|t: int| 0 <= t < i ==> ok@[t] == (gzip_text(archives@[t]@) is Some),
        decreases archives@.len() - i,
    {
        proof {
            assert(bv.take(i + 1).drop_last() =~= bv.take(i as int));
            assert(bv.take(i + 1).last() == archives@[i as int]@);
        }
        match gunzip_text(archives[i].as_slice()) {
            Some(text) => {
                append_chars(&mut acc, chars_of(text.as_str()).as_slice());
                acc.push('\n');
                ok.push(true);
                proof {
                    assert(acc@ =~= index_text(bv.take(i as int)) + (text@ + seq!['\n']));
                }
            },
            None => {
                ok.push(false);
                proof {
                    assert(index_text(bv.take(i + 1)) =~= index_text(bv.take(i as int)));
                }
            },
        }
        i += 1;
    }
    proof {
        assert(bv.take(i as int) =~= bv);
    }
    (string_of(acc.as_slice()), ok)
}

/// The package records of an index text: the text is cut at each blank line
/// (`"\n\n"`), and every piece but the last is read as a record.
pub open spec fn index_records(data: Seq<char>) -> Seq<Seq<char>> {
    split(data, seq!['\n', '\n']).drop_last()
}

/// Reads the package records of an index text (see `index_records`).
pub fn parse_package_index(data: &str) -> (r: Vec<AptPackageInfo>)
    ensures
        r@.len() == index_records(data@).len(),
        forall|i: int| 0 <= i < r@.len() ==> apt_record_fields(#[trigger] r@[i], index_records(data@)[i]),
{
    let chars = chars_of(data);
    let sep = vec!['\n', '\n'];
    let blocks = split_chars(chars.as_slice(), sep.as_slice());
    proof {
        assert(sep@ =~= seq!['\n', '\n']);
        crate::text::lemma_split_nonempty(chars@, sep@);
    }
    let ghost bs = char_views(blocks@);
    let count = blocks.len() - 1;
    let mut r: Vec<AptPackageInfo> = Vec::new();
    let mut i: usize = 0;
    while i < count
        invariant
            count + 1 == blocks@.len(),
            bs == char_views(blocks@),
            bs == split(data@, seq!['\n', '\n']),
            i <= count,
            r@.len() == i,
            forall|t: int| 0 <= t < i ==> apt_record_fields(#[trigger] r@[t], bs[t]),
        decreases count - i,
    {
        let text = string_of(blocks[i].as_slice());
        proof {
            assert(text@ == bs[i as int]);
        }
        match AptPackageInfo::from_string(text.as_str()) {
            Ok(info) => {
                r.push(info);
            },
            Err(_) => {},
        }
        i += 1;
    }
    r
}

} // verus!

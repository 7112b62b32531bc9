//! Importing a package from a local file or directory: telling what kind
//! of thing the path names.
use crate::library::system::{join_path, path_join};
use crate::text::{char_views, chars_of, copy_range, split, split_chars, string_of};
use vstd::prelude::*;

verus! {

/// The pieces of a path that name something: the text between `/`s, without
/// empty pieces and `.` (what `Path::components` keeps of a plain path).
pub open spec fn named_pieces(pieces: Seq<Seq<char>>) -> Seq<Seq<char>>
    decreases pieces.len(),
{
    if pieces.len() == 0 {
        seq![]
    } else if pieces.last().len() == 0 || pieces.last() == seq!['.'] {
        named_pieces(pieces.drop_last())
    } else {
        named_pieces(pieces.drop_last()).push(pieces.last())
    }
}

/// The last component of the path `p`, unless it is `..` or there is none
/// (`Path::file_name`).
pub open spec fn file_name(p: Seq<char>) -> Option<Seq<char>> {
    let cs = named_pieces(split(p, seq!['/']));
    if cs.len() == 0 || cs.last() == seq!['.', '.'] {
        None
    } else {
        Some(cs.last())
    }
}

/// The position of the last `.` in `s`.
pub open spec fn last_dot(s: Seq<char>) -> Option<int>
    decreases s.len(),
{
    if s.len() == 0 {
        None
    } else if s.last() == '.' {
        Some(s.len() - 1)
    } else {
        last_dot(s.drop_last())
    }
}

/// A file name cut at its last `.`: the part before, if any, and the part
/// after. A name with no `.`, or whose only `.` starts it, has no extension.
pub open spec fn split_name(name: Seq<char>) -> (Option<Seq<char>>, Option<Seq<char>>) {
    if name == seq!['.', '.'] {
        (Some(name), None)
    } else {
        match last_dot(name) {
            None => (None, Some(name)),
            Some(i) => if i == 0 {
                (Some(name), None)
            } else {
                (Some(name.take(i)), Some(name.skip(i + 1)))
            },
        }
    }
}

/// The extension of the path `p` (`Path::extension`).
pub open spec fn path_extension(p: Seq<char>) -> Option<Seq<char>> {
    match file_name(p) {
        Some(n) => match split_name(n) {
            (Some(_), Some(a)) => Some(a),
            _ => None,
        },
        None => None,
    }
}

/// The file name of `p` without its extension (`Path::file_stem`).
pub open spec fn path_stem(p: Seq<char>) -> Option<Seq<char>> {
    match file_name(p) {
        Some(n) => match split_name(n) {
            (Some(b), _) => Some(b),
            (None, a) => a,
        },
        None => None,
    }
}

/// What a local path holds, and so how it is imported.
#[derive(Debug, Clone, Copy, PartialEq, Eq, Structural)]
pub enum LocalImport {
    /// A directory: it is copied.
    Directory,
    /// A `.tar.gz` archive: it is unpacked.
    TarGz,
    /// A `.gz` file of another kind: refused.
    UnsupportedGz,
    /// A `.gz` file whose name has no other extension: passed over.
    IgnoredGz,
    /// A `.tar` archive: it is unpacked.
    Tar,
    /// A `.zip` archive: it is unpacked.
    Zip,
    /// Any other file with an extension: it is copied.
    PlainFile,
    /// A file without an extension: refused.
    NoExtension,
}

/// How the path `p` is imported (`is_dir` tells whether it is a directory).
pub open spec fn import_kind(p: Seq<char>, is_dir: bool) -> LocalImport {
    if is_dir {
        LocalImport::Directory
    } else {
        match path_extension(p) {
            None => LocalImport::NoExtension,
            Some(e) => if e == "gz"@ {
                match path_stem(p) {
                    Some(s) => match path_extension(s) {
                        Some(pe) => if pe == "tar"@ {
                            LocalImport::TarGz
                        } else {
                            LocalImport::UnsupportedGz
                        },
                        None => LocalImport::IgnoredGz,
                    },
                    None => LocalImport::IgnoredGz,
                }
            } else if e == "tar"@ {
                LocalImport::Tar
            } else if e == "zip"@ {
                LocalImport::Zip
            } else {
                LocalImport::PlainFile
            },
        }
    }
}

fn named_pieces_of(pieces: &Vec<Vec<char>>) -> (r: Vec<Vec<char>>)
    ensures
        char_views(r@) == named_pieces(char_views(pieces@)),
{
    let ghost pv = char_views(pieces@);
    let mut r: Vec<Vec<char>> = Vec::new();
    let mut i: usize = 0;
    proof {
        assert(pv.take(0) =~= Seq::<Seq<char>>::empty());
        assert(char_views(r@) =~= Seq::<Seq<char>>::empty());
    }
    while i < pieces.len()
        invariant
            i <= pieces@.len(),
            pv == char_views(pieces@),
            char_views(r@) == named_pieces(pv.take(i as int)),
        decreases pieces@.len() - i,
    {
        proof {
            assert(pv.take(i + 1).drop_last() =~= pv.take(i as int));
            assert(pv.take(i + 1).last() == pieces@[i as int]@);
        }
        let piece = &pieces[i];
        let is_dot = piece.len() == 1 && piece[0] == '.';
        proof {
            assert(is_dot == (piece@ == seq!['.'])) by {
                if piece@ == seq!['.'] {
                    assert(piece@.len() == 1 && piece@[0] == '.');
                }
                if is_dot {
                    assert(piece@ =~= seq!['.']);
                }
            }
        }
        if piece.len() > 0 && !is_dot {
            let copy = copy_range(piece.as_slice(), 0, piece.len());
            let ghost old_r = char_views(r@);
            r.push(copy);
            proof {
                assert(copy@ =~= piece@);
                assert(char_views(r@) =~= old_r.push(piece@));
            }
        }
        i += 1;
    }
    proof {
        assert(pv.take(i as int) =~= pv);
    }
    r
}

fn is_dot_dot(s: &Vec<char>) -> (b: bool)
    ensures
        b == (s@ == seq!['.', '.']),
{
    let b = s.len() == 2 && s[0] == '.' && s[1] == '.';
    proof {
        if b {
            assert(s@ =~= seq!['.', '.']);
        }
    }
    b
}

/// The last component of `p` (see `file_name`).
pub fn file_name_of(p: &[char]) -> (r: Option<Vec<char>>)
    ensures
        match r {
            Some(n) => file_name(p@) == Some(n@),
            None => file_name(p@) is None,
        },
{
    let slash = vec!['/'];
    proof {
        assert(slash@ =~= seq!['/']);
    }
    let pieces = split_chars(p, slash.as_slice());
    let cs = named_pieces_of(&pieces);
    let n = cs.len();
    if n == 0 {
        return None;
    }
    proof {
        assert(char_views(cs@).last() == cs@[n - 1]@);
    }
    if is_dot_dot(&cs[n - 1]) {
        return None;
    }
    Some(copy_range(cs[n - 1].as_slice(), 0, cs[n - 1].len()))
}

proof fn lemma_last_dot(s: Seq<char>)
    ensures
        last_dot(s) matches Some(i) ==> 0 <= i < s.len() && s[i] == '.',
    decreases s.len(),
{
    if s.len() > 0 && s.last() != '.' {
        lemma_last_dot(s.drop_last());
    }
}

fn last_dot_of(s: &[char]) -> (r: Option<usize>)
    ensures
        match r {
            Some(i) => last_dot(s@) == Some(i as int),
            None => last_dot(s@) is None,
        },
{
    let mut j = s.len();
    proof {
        assert(s@.take(j as int) =~= s@);
    }
    while j > 0
        invariant
            j <= s@.len(),
            last_dot(s@) == last_dot(s@.take(j as int)),
        decreases j,
    {
        proof {
            assert(s@.take(j as int).drop_last() =~= s@.take(j - 1));
        }
        if s[j - 1] == '.' {
            return Some(j - 1);
        }
        j -= 1;
    }
    None
}

/// The extension and the stem of the file name `name` (see `split_name`).
fn split_name_of(name: &Vec<char>) -> (r: (Option<Vec<char>>, Option<Vec<char>>))
    ensures
        split_name(name@) == (match r.0 {
            Some(b) => Some(b@),
            None => None,
        }, match r.1 {
            Some(a) => Some(a@),
            None => None,
        }),
{
    let whole = copy_range(name.as_slice(), 0, name.len());
    proof {
        assert(whole@ =~= name@);
    }
    if is_dot_dot(name) {
        return (Some(whole), None);
    }
    proof {
        lemma_last_dot(name@);
    }
    match last_dot_of(name.as_slice()) {
        None => (None, Some(whole)),
        Some(i) => {
            if i == 0 {
                (Some(whole), None)
            } else {
                let before = copy_range(name.as_slice(), 0, i);
                let after = copy_range(name.as_slice(), i + 1, name.len());
                proof {
                    assert(before@ =~= name@.take(i as int));
                    assert(after@ =~= name@.skip(i + 1));
                }
                (Some(before), Some(after))
            }
        },
    }
}

/// The extension of `p` (see `path_extension`).
pub fn extension_of(p: &[char]) -> (r: Option<Vec<char>>)
    ensures
        match r {
            Some(e) => path_extension(p@) == Some(e@),
            None => path_extension(p@) is None,
        },
{
    match file_name_of(p) {
        Some(n) => {
            let (before, after) = split_name_of(&n);
            match (before, after) {
                (Some(_), Some(a)) => Some(a),
                _ => None,
            }
        },
        None => None,
    }
}

/// The stem of `p` (see `path_stem`).
pub fn stem_of(p: &[char]) -> (r: Option<Vec<char>>)
    ensures
        match r {
            Some(s) => path_stem(p@) == Some(s@),
            None => path_stem(p@) is None,
        },
{
    match file_name_of(p) {
        Some(n) => {
            let (before, after) = split_name_of(&n);
            match before {
                Some(b) => Some(b),
                None => after,
            }
        },
        None => None,
    }
}

fn is_word(s: &Vec<char>, w: &str) -> (b: bool)
    ensures
        b == (s@ == w@),
{
    crate::control::same_chars(s.as_slice(), chars_of(w).as_slice())
}

/// How the local path `path` is imported (see `import_kind`).
pub fn classify_local_path(path: &str, is_dir: bool) -> (r: LocalImport)
    ensures
        r == import_kind(path@, is_dir),
{
    if is_dir {
        return LocalImport::Directory;
    }
    let p = chars_of(path);
    match extension_of(p.as_slice()) {
        None => LocalImport::NoExtension,
        Some(e) => {
            if is_word(&e, "gz") {
                match stem_of(p.as_slice()) {
                    Some(s) => match extension_of(s.as_slice()) {
                        Some(pe) => if is_word(&pe, "tar") {
                            LocalImport::TarGz
                        } else {
                            LocalImport::UnsupportedGz
                        },
                        None => LocalImport::IgnoredGz,
                    },
                    None => LocalImport::IgnoredGz,
                }
            } else if is_word(&e, "tar") {
                LocalImport::Tar
            } else if is_word(&e, "zip") {
                LocalImport::Zip
            } else {
                LocalImport::PlainFile
            }
        },
    }
}

/// Where a copied file or directory goes: its name joined to `cache_dir`;
/// `None` when the path has no file name.
pub fn import_destination(path: &str, cache_dir: &str) -> (r: Option<String>)
    ensures
        match r {
            Some(d) => file_name(path@) matches Some(n) && d@ == path_join(cache_dir@, n),
            None => file_name(path@) is None,
        },
{
    match file_name_of(chars_of(path).as_slice()) {
        Some(n) => Some(join_path(cache_dir, string_of(n.as_slice()).as_str())),
        None => None,
    }
}

} // verus!

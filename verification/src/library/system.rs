//! Where IPM keeps its files, derived from the directory it was started in
//! and its work directory setting.
use crate::text::{append_chars, chars_of, string_of};
use vstd::prelude::*;

verus! {

/// `p` appended to the path `base` (`Path::join` on Unix): an absolute `p`
/// replaces `base`; otherwise a `/` separates the two unless `base` is empty
/// or already ends with one.
pub open spec fn path_join(base: Seq<char>, p: Seq<char>) -> Seq<char> {
    if p.len() > 0 && p[0] == '/' {
        p
    } else if base.len() > 0 && base.last() != '/' {
        base + seq!['/'] + p
    } else {
        base + p
    }
}

pub fn join_path(base: &str, p: &str) -> (r: String)
    ensures
        r@ == path_join(base@, p@),
{
    let b = chars_of(base);
    let q = chars_of(p);
    if q.len() > 0 && q[0] == '/' {
        return string_of(q.as_slice());
    }
    let mut acc: Vec<char> = Vec::new();
    append_chars(&mut acc, b.as_slice());
    if b.len() > 0 && b[b.len() - 1] != '/' {
        acc.push('/');
    }
    append_chars(&mut acc, q.as_slice());
    string_of(acc.as_slice())
}

/// The settings the paths come from: the directory IPM was started in
/// (`IPM_CURRENT_DIR`, made absolute) and the work directory setting
/// (`IPM_WORK_DIR`), which is taken relative to it.
pub struct SystemEnv {
    pub current_dir: String,
    pub work_dir: String,
}

/// The work directory: the setting joined to the start directory.
pub open spec fn work_path_of(env: SystemEnv) -> Seq<char> {
    path_join(env.current_dir@, env.work_dir@)
}

/// The start directory.
pub fn current_path(env: &SystemEnv) -> (r: String)
    ensures
        r@ == env.current_dir@,
{
    env.current_dir.clone()
}

/// The start directory, as text.
pub fn current_dir(env: &SystemEnv) -> (r: String)
    ensures
        r@ == env.current_dir@,
{
    current_path(env)
}

/// The work directory.
pub fn work_path(env: &SystemEnv) -> (r: String)
    ensures
        r@ == work_path_of(*env),
{
    join_path(env.current_dir.as_str(), env.work_dir.as_str())
}

/// The work directory, as text.
pub fn work_dir(env: &SystemEnv) -> (r: String)
    ensures
        r@ == work_path_of(*env),
{
    work_path(env)
}

/// The directory for temporary files: `tmp` in the work directory.
pub fn tmp_path(env: &SystemEnv) -> (r: String)
    ensures
        r@ == path_join(work_path_of(*env), "tmp"@),
{
    join_path(work_path(env).as_str(), "tmp")
}

/// The directory for temporary files, as text.
pub fn tmp_dir(env: &SystemEnv) -> (r: String)
    ensures
        r@ == path_join(work_path_of(*env), "tmp"@),
{
    tmp_path(env)
}

/// The directory of installed packages: `package` in the work directory.
pub fn package_path(env: &SystemEnv) -> (r: String)
    ensures
        r@ == path_join(work_path_of(*env), "package"@),
{
    join_path(work_path(env).as_str(), "package")
}

/// The directory of installed packages, as text.
pub fn package_dir(env: &SystemEnv) -> (r: String)
    ensures
        r@ == path_join(work_path_of(*env), "package"@),
{
    package_path(env)
}

/// The file that describes the IPM installation: `bin/ipm-info.json` in the
/// work directory.
pub fn system_info_path(env: &SystemEnv) -> (r: String)
    ensures
        r@ == path_join(work_path_of(*env), "bin/ipm-info.json"@),
{
    join_path(work_path(env).as_str(), "bin/ipm-info.json")
}

/// Law: a relative name joined to a directory lies inside it: the directory
/// is a prefix of the result, followed by the name.
pub proof fn lemma_join_inside(base: Seq<char>, name: Seq<char>)
    requires
        name.len() > 0,
        name[0] != '/',
    ensures
        path_join(base, name).take(base.len() as int) == base,
        path_join(base, name).len() > base.len(),
        path_join(base, name).skip(path_join(base, name).len() - name.len()) == name,
{
    let j = path_join(base, name);
    if base.len() > 0 && base.last() != '/' {
        assert(j.take(base.len() as int) =~= base);
        assert(j.skip(j.len() - name.len()) =~= name);
    } else {
        assert(j.take(base.len() as int) =~= base);
        assert(j.skip(j.len() - name.len()) =~= name);
    }
}

/// Law: the temporary, package and system-information locations all lie
/// inside the work directory.
pub proof fn lemma_store_inside_work(env: SystemEnv)
    ensures
        path_join(work_path_of(env), "tmp"@).take(work_path_of(env).len() as int) == work_path_of(env),
        path_join(work_path_of(env), "package"@).take(work_path_of(env).len() as int) == work_path_of(env),
        path_join(work_path_of(env), "bin/ipm-info.json"@).take(work_path_of(env).len() as int)
            == work_path_of(env),
{
    reveal_strlit("tmp");
    reveal_strlit("package");
    reveal_strlit("bin/ipm-info.json");
    lemma_join_inside(work_path_of(env), "tmp"@);
    lemma_join_inside(work_path_of(env), "package"@);
    lemma_join_inside(work_path_of(env), "bin/ipm-info.json"@);
}

} // verus!

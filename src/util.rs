use vstd::prelude::*;
use vstd::string::StringExecFns;
use vstd::string::StrSliceExecFns;

verus! {

/// Why a directory argument could not be resolved.
#[derive(Debug, Clone, Copy, PartialEq, Eq, Structural)]
pub enum PathError {
    InvalidDirectory,
}

/// `rel` joined onto `base`: an absolute `rel` replaces `base`, otherwise one separator
/// stands between them.
pub open spec fn joined(base: Seq<char>, rel: Seq<char>) -> Seq<char> {
    if rel.len() > 0 && rel[0] == '/' {
        rel
    } else if base.len() == 0 {
        rel
    } else if base.last() == '/' {
        base + rel
    } else {
        base + seq!['/'] + rel
    }
}

/// `dir` names the current directory itself.
pub open spec fn is_current(dir: Seq<char>) -> bool {
    dir == "."@ || dir.len() == 0 || dir == "./"@
}

/// `dir` starts with `./`.
pub open spec fn is_dot_relative(dir: Seq<char>) -> bool {
    dir.len() >= 2 && dir[0] == '.' && dir[1] == '/'
}

/// The absolute path that `dir`, relative to `current_dir`, resolves to; `joined_is_dir`
/// says whether `joined(current_dir, dir)` names a directory.
pub open spec fn resolved(dir: Seq<char>, current_dir: Seq<char>, joined_is_dir: bool) -> Option<Seq<char>> {
    if is_current(dir) {
        Some(current_dir)
    } else if is_dot_relative(dir) {
        Some(joined(current_dir, dir.subrange(2, dir.len() as int)))
    } else if joined_is_dir {
        Some(joined(current_dir, dir))
    } else {
        None
    }
}

fn str_eq(a: &str, b: &str) -> (r: bool)
    ensures
        r == (a@ == b@),
{
    let n = a.unicode_len();
    if n != b.unicode_len() {
        return false;
    }
    let mut i: usize = 0;
    while i < n
        invariant
            n == a@.len(),
            n == b@.len(),
            i <= n,
            forall|j: int| 0 <= j < i ==> a@[j] == b@[j],
        decreases n - i,
    {
        if a.get_char(i) != b.get_char(i) {
            return false;
        }
        i = i + 1;
    }
    assert(a@ =~= b@);
    true
}

/// Joins `rel` onto `base` as a path.
pub fn join_path(base: &str, rel: &str) -> (r: String)
    ensures
        r@ == joined(base@, rel@),
{
    let rn = rel.unicode_len();
    let bn = base.unicode_len();
    if rn > 0 && rel.get_char(0) == '/' {
        return String::from_str(rel);
    }
    if bn == 0 {
        return String::from_str(rel);
    }
    let mut s = String::from_str(base);
    if base.get_char(bn - 1) != '/' {
        proof {
            reveal_strlit("/");
        }
        s.append("/");
    }
    s.append(rel);
    s
}

/// Resolves a directory argument against the current directory: `.`, `./` and the empty
/// string name the current directory, `./x` names `x` under it, and any other `dir` is
/// accepted only when `joined_is_dir` reports that it names a directory under it.
pub fn convert_dir_path_to_absolute_path(dir: &str, current_dir: &str, joined_is_dir: bool) -> (r: Result<String, PathError>)
    ensures
        match resolved(dir@, current_dir@, joined_is_dir) {
            Some(p) => r matches Ok(s) && s@ == p,
            None => r == Err::<String, PathError>(PathError::InvalidDirectory),
        },
{
    proof {
        reveal_strlit(".");
        reveal_strlit("./");
    }
    let n = dir.unicode_len();
    if str_eq(dir, ".") || n == 0 || str_eq(dir, "./") {
        return Ok(String::from_str(current_dir));
    }
    if n >= 2 && dir.get_char(0) == '.' && dir.get_char(1) == '/' {
        let rest = dir.substring_char(2, n);
        return Ok(join_path(current_dir, rest));
    }
    if joined_is_dir {
        return Ok(join_path(current_dir, dir));
    }
    Err(PathError::InvalidDirectory)
}

} // verus!

use vstd::prelude::*;
use vstd::string::StrSliceExecFns;
use vstd::string::StringExecFns;

verus! {

/// `name` placed inside directory `dir`: a `/` is put between the two unless `dir`
/// is empty or already ends in one.
pub open spec fn joined(dir: Seq<char>, name: Seq<char>) -> Seq<char> {
    if dir.len() == 0 {
        name
    } else if dir.last() == '/' {
        dir + name
    } else {
        dir + seq!['/'] + name
    }
}

/// Whether the prefix of `p` of length `j` ends a component of the path: either it
/// ends a run of non-separator characters, or it is the leading root `/`.
pub open spec fn is_cut(p: Seq<char>, j: int) -> bool {
    &&& 1 <= j <= p.len()
    &&& {
        ||| (p[j - 1] != '/' && (j == p.len() || p[j] == '/'))
        ||| (j == 1 && p[0] == '/')
    }
}

/// The prefixes of `p` that end a component, among the first `n` positions, shortest first.
pub open spec fn prefixes_upto(p: Seq<char>, n: int) -> Seq<Seq<char>>
    decreases n,
{
    if n <= 0 {
        Seq::empty()
    } else {
        let r = prefixes_upto(p, n - 1);
        if is_cut(p, n) {
            r.push(p.subrange(0, n))
        } else {
            r
        }
    }
}

/// Every directory from the root down to `p` itself: the accumulated path after each
/// of its components.
pub open spec fn dir_prefixes_of(p: Seq<char>) -> Seq<Seq<char>> {
    prefixes_upto(p, p.len() as int)
}

/// The position just after the last `/` among the first `n` characters of `p`,
/// or 0 where there is none.
pub open spec fn after_last_slash(p: Seq<char>, n: int) -> int
    decreases n,
{
    if n <= 0 {
        0
    } else if p[n - 1] == '/' {
        n
    } else {
        after_last_slash(p, n - 1)
    }
}

/// The length of `p` once the `/` characters that end its first `n` characters are dropped.
pub open spec fn without_trailing_slashes(p: Seq<char>, n: int) -> int
    decreases n,
{
    if n <= 0 {
        0
    } else if p[n - 1] == '/' {
        without_trailing_slashes(p, n - 1)
    } else {
        n
    }
}

/// Whether `c` is a component that names no entry: empty, `.` or `..`.
pub open spec fn is_unnamed(c: Seq<char>) -> bool {
    ||| c.len() == 0
    ||| c == seq!['.']
    ||| c == seq!['.', '.']
}

/// The last component of `p`, trailing `/` characters ignored: `None` where that
/// component is empty, `.` or `..`.
pub open spec fn bare_name_of(p: Seq<char>) -> Option<Seq<char>> {
    let e = without_trailing_slashes(p, p.len() as int);
    let c = p.subrange(after_last_slash(p, e), e);
    if is_unnamed(c) {
        None
    } else {
        Some(c)
    }
}

/// The path of entry `name` inside directory `dir`.
pub fn join(dir: &str, name: &str) -> (r: String)
    ensures
        r@ == joined(dir@, name@),
{
    proof {
        reveal_strlit("/");
    }
    let n = dir.unicode_len();
    let mut r = String::from_str(dir);
    if n == 0 {
        return String::from_str(name);
    }
    if dir.get_char(n - 1) != '/' {
        r.append("/");
    }
    r.append(name);
    assert(r@ =~= joined(dir@, name@));
    r
}

/// The accumulated directory paths from the root of `path` down to `path`, shortest
/// first: `/a/b` gives `/`, `/a`, `/a/b`; `a//b/` gives `a`, `a//b`.
pub fn dir_prefixes(path: &str) -> (r: Vec<String>)
    ensures
        r@.len() == dir_prefixes_of(path@).len(),
        forall|k: int| 0 <= k < r@.len() ==> #[trigger] r@[k]@ == dir_prefixes_of(path@)[k],
{
    let n = path.unicode_len();
    let mut r: Vec<String> = Vec::new();
    let mut i: usize = 0;
    while i < n
        invariant
            n == path@.len(),
            i <= n,
            r@.len() == prefixes_upto(path@, i as int).len(),
            forall|k: int| 0 <= k < r@.len() ==> #[trigger] r@[k]@ == prefixes_upto(path@, i as int)[k],
        decreases n - i,
    {
        let c = path.get_char(i);
        let cut = (c != '/' && (i + 1 == n || path.get_char(i + 1) == '/')) || (i == 0 && c == '/');
        if cut {
            r.push(String::from_str(path.substring_char(0, i + 1)));
        }
        i = i + 1;
    }
    r
}

/// The last component of `path`, trailing `/` characters ignored, or `None` where
/// it is empty, `.` or `..`: `a/b/` gives `b`; `a/..`, `a/.` and `/` give `None`.
pub fn bare_name(path: &str) -> (r: Option<String>)
    ensures
        r matches Some(s) ==> bare_name_of(path@) == Some(s@),
        r is None ==> bare_name_of(path@) is None,
{
    let n = path.unicode_len();
    let mut e: usize = n;
    while e > 0 && path.get_char(e - 1) == '/'
        invariant
            n == path@.len(),
            e <= n,
            without_trailing_slashes(path@, n as int) == without_trailing_slashes(path@, e as int),
        decreases e,
    {
        e = e - 1;
    }
    let mut k: usize = e;
    while k > 0 && path.get_char(k - 1) != '/'
        invariant
            n == path@.len(),
            k <= e <= n,
            e == without_trailing_slashes(path@, n as int),
            after_last_slash(path@, e as int) == after_last_slash(path@, k as int),
        decreases k,
    {
        k = k - 1;
    }
    let c = path.substring_char(k, e);
    let unnamed = k == e || (e - k == 1 && c.get_char(0) == '.') || (e - k == 2 && c.get_char(0) == '.'
        && c.get_char(1) == '.');
    proof {
        if e - k == 1 && c@[0] == '.' {
            assert(c@ =~= seq!['.']);
        }
        if e - k == 2 && c@[0] == '.' && c@[1] == '.' {
            assert(c@ =~= seq!['.', '.']);
        }
        if !unnamed {
            assert(c@ != seq!['.']) by {
                if c@ == seq!['.'] {
                    assert(c@[0] == '.');
                }
            }
            assert(c@ != seq!['.', '.']) by {
                if c@ == seq!['.', '.'] {
                    assert(c@[0] == '.' && c@[1] == '.');
                }
            }
        }
    }
    if unnamed {
        None
    } else {
        Some(String::from_str(c))
    }
}

} // verus!

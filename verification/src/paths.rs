//! Path arithmetic shared by the whole pipeline: prefix tests for the chroot
//! confinement invariant, separator normalization, and path rebasing for
//! client-asset emission. Paths are plain strings; their mathematical model
//! is the sequence of characters.

use vstd::prelude::*;
use vstd::string::*;

verus! {

/// Holds when `prefix` is a leading run of `s`.
pub open spec fn is_char_prefix(prefix: Seq<char>, s: Seq<char>) -> bool {
    prefix.len() <= s.len() && s.subrange(0, prefix.len() as int) == prefix
}

/// Holds when `p` names `d` itself or a path strictly below `d`.
pub open spec fn lies_under(p: Seq<char>, d: Seq<char>) -> bool {
    is_char_prefix(d, p) && (p.len() == d.len() || p[d.len() as int] == '/')
}

/// `s` with every occurrence of `sep` replaced by `/`.
pub open spec fn sep_replaced(s: Seq<char>, sep: char) -> Seq<char> {
    s.map_values(|c: char| if c == sep { '/' } else { c })
}

/// `s` with one leading `sep` removed, if there is one.
pub open spec fn sep_stripped(s: Seq<char>, sep: char) -> Seq<char> {
    if s.len() > 0 && s[0] == sep {
        s.subrange(1, s.len() as int)
    } else {
        s
    }
}

/// The project path relative to the root, in `/`-separated form: what remains
/// of `path` after the `root` prefix and at most one leading separator are
/// removed and every platform separator is replaced by `/`.
pub open spec fn spec_project_relative(root: Seq<char>, path: Seq<char>, sep: char) -> Seq<char> {
    sep_replaced(sep_stripped(path.subrange(root.len() as int, path.len() as int), sep), sep)
}

pub fn starts_with_chars(s: &str, prefix: &str) -> (r: bool)
    ensures
        r == is_char_prefix(prefix@, s@),
{
    let n = prefix.unicode_len();
    let m = s.unicode_len();
    if n > m {
        return false;
    }
    let mut i: usize = 0;
    while i < n
        invariant
            i <= n,
            n == prefix@.len(),
            n <= m,
            m == s@.len(),
            forall|j: int| 0 <= j < i ==> s@[j] == prefix@[j],
        decreases n - i,
    {
        if s.get_char(i) != prefix.get_char(i) {
            assert(s@.subrange(0, prefix@.len() as int)[i as int] == s@[i as int]);
            return false;
        }
        i += 1;
    }
    assert(s@.subrange(0, n as int) =~= prefix@);
    true
}

pub fn path_lies_under(p: &str, d: &str) -> (r: bool)
    ensures
        r == lies_under(p@, d@),
{
    if !starts_with_chars(p, d) {
        return false;
    }
    let dn = d.unicode_len();
    let pn = p.unicode_len();
    if pn == dn {
        return true;
    }
    p.get_char(dn) == '/'
}

/// Concatenation of two string slices.
pub fn join2(a: &str, b: &str) -> (r: String)
    ensures
        r@ == a@ + b@,
{
    let mut s = a.to_owned();
    s.append(b);
    s
}

/// `s` with every occurrence of `sep` replaced by `/`.
pub fn replace_sep(s: &str, sep: char) -> (r: String)
    ensures
        r@ == sep_replaced(s@, sep),
{
    let n = s.unicode_len();
    let mut out = String::new();
    let mut i: usize = 0;
    while i < n
        invariant
            i <= n,
            n == s@.len(),
            out@ == sep_replaced(s@.subrange(0, i as int), sep),
        decreases n - i,
    {
        let c = s.get_char(i);
        let ghost out0 = out@;
        if c == sep {
            out.append("/");
        } else {
            let piece = s.substring_char(i, i + 1);
            out.append(piece);
        }
        proof {
            reveal_strlit("/");
            assert("/"@ =~= seq!['/']);
            assert(s@.subrange(i as int, (i + 1) as int) =~= seq![s@[i as int]]);
            assert(sep_replaced(s@.subrange(0, (i + 1) as int), sep) =~= out0.push(
                if s@[i as int] == sep {
                    '/'
                } else {
                    s@[i as int]
                },
            ));
            assert(out@ =~= sep_replaced(s@.subrange(0, (i + 1) as int), sep));
        }
        i += 1;
    }
    proof {
        assert(s@.subrange(0, n as int) =~= s@);
    }
    out
}

/// The project path relative to the root, or `None` when `path` is not nested
/// under `root`: the confinement check that guards every build.
pub fn project_relative(root: &str, path: &str, sep: char) -> (r: Option<String>)
    ensures
        r is Some <==> is_char_prefix(root@, path@),
        r is Some ==> r->Some_0@ == spec_project_relative(root@, path@, sep),
{
    if !starts_with_chars(path, root) {
        return None;
    }
    let n = root.unicode_len();
    let m = path.unicode_len();
    let tail = path.substring_char(n, m);
    let tail2: &str = if tail.unicode_len() > 0 && tail.get_char(0) == sep {
        let t = tail.unicode_len();
        tail.substring_char(1, t)
    } else {
        tail
    };
    proof {
        assert(tail2@ =~= sep_stripped(path@.subrange(root@.len() as int, path@.len() as int), sep));
    }
    Some(replace_sep(tail2, sep))
}

/// `path`, which lies under `from`, rebased onto `to`: the target keeps the
/// part of `path` below `from`.
pub fn rebase_path(path: &str, from: &str, to: &str) -> (r: String)
    requires
        lies_under(path@, from@),
    ensures
        r@ == to@ + path@.subrange(from@.len() as int, path@.len() as int),
{
    let n = from.unicode_len();
    let m = path.unicode_len();
    let tail = path.substring_char(n, m);
    join2(to, tail)
}

/// `"/" + s`: the pathname of a router-relative path.
pub fn pathname_with_slash(s: &str) -> (r: String)
    ensures
        r@ == seq!['/'] + s@,
        r@.len() == s@.len() + 1,
        r@[0] == '/',
{
    proof {
        reveal_strlit("/");
        assert("/"@ =~= seq!['/']);
    }
    join2("/", s)
}

} // verus!

//! Lexical operations on `/`-separated paths held as characters.
use vstd::prelude::*;
use path_absolutize::Absolutize;
use crate::text::{has_prefix, index_from, matches_at, push_all, slice};

verus! {

/// Whether `p` is a leading run of whole components of `t` (`/mnt` of
/// `/mnt/data`, not of `/mnt2`).
pub open spec fn is_path_prefix(p: Seq<char>, t: Seq<char>) -> bool {
    &&& p.len() > 0
    &&& has_prefix(t, p)
    &&& (t.len() == p.len() || p.last() == '/' || t[p.len() as int] == '/')
}

/// What remains of `t` below its component prefix `p`, without a leading `/`.
pub open spec fn relative_to(t: Seq<char>, p: Seq<char>) -> Seq<char> {
    if t.len() == p.len() || p.last() == '/' {
        t.subrange(p.len() as int, t.len() as int)
    } else {
        t.subrange(p.len() as int + 1, t.len() as int)
    }
}

/// `b` appended to `a` as a further component.
pub open spec fn join(a: Seq<char>, b: Seq<char>) -> Seq<char> {
    if a.len() == 0 {
        b
    } else if a.last() == '/' {
        a + b
    } else {
        a + seq!['/'] + b
    }
}

/// The position of the last `c` in `s`, or -1.
pub open spec fn last_index(s: Seq<char>, c: char) -> int
    decreases s.len(),
{
    if s.len() == 0 {
        -1
    } else if s.last() == c {
        s.len() - 1
    } else {
        last_index(s.drop_last(), c)
    }
}

/// The last component of `s`; none where it is empty, `.` or `..`.
pub open spec fn file_name(s: Seq<char>) -> Option<Seq<char>> {
    let n = s.subrange(last_index(s, '/') + 1, s.len() as int);
    if n.len() == 0 || n == seq!['.'] || n == seq!['.', '.'] {
        None
    } else {
        Some(n)
    }
}

/// The path without its last component: `/` for a component right below the
/// root, empty for a single relative component, none for the root or an empty path.
pub open spec fn parent(s: Seq<char>) -> Option<Seq<char>> {
    let i = last_index(s, '/');
    if s.len() == 0 || s == seq!['/'] {
        None
    } else if i == -1 {
        Some(Seq::empty())
    } else if i == 0 {
        Some(seq!['/'])
    } else {
        Some(s.subrange(0, i))
    }
}

/// A file name without its last extension (a leading dot starts no extension).
pub open spec fn stem(n: Seq<char>) -> Seq<char> {
    let k = last_index(n, '.');
    if k <= 0 {
        n
    } else {
        n.subrange(0, k)
    }
}

pub proof fn lemma_last_index(s: Seq<char>, c: char)
    ensures
        -1 <= last_index(s, c) < s.len(),
        last_index(s, c) >= 0 ==> s[last_index(s, c)] == c,
        forall|k: int| last_index(s, c) < k < s.len() ==> s[k] != c,
    decreases s.len(),
{
    if s.len() > 0 && s.last() != c {
        lemma_last_index(s.drop_last(), c);
        assert forall|k: int| last_index(s, c) < k < s.len() implies s[k] != c by {
            if k < s.len() - 1 {
                assert(s[k] == s.drop_last()[k]);
            }
        }
    }
}

/// The position of the last `c` in `s`, or -1.
pub fn find_last(s: &Vec<char>, c: char) -> (r: Option<usize>)
    ensures
        r matches Some(i) ==> i == last_index(s@, c),
        r is None ==> last_index(s@, c) == -1,
{
    let mut i: usize = s.len();
    assert(s@.subrange(0, i as int) =~= s@);
    while i > 0
        invariant
            i <= s@.len(),
            last_index(s@, c) == last_index(s@.subrange(0, i as int), c),
        decreases i,
    {
        assert(s@.subrange(0, i as int).drop_last() =~= s@.subrange(0, i - 1));
        if s[i - 1] == c {
            return Some(i - 1);
        }
        i = i - 1;
    }
    None
}

/// Whether `p` is a component prefix of `t`.
pub fn path_starts_with(t: &Vec<char>, p: &Vec<char>) -> (r: bool)
    ensures
        r == is_path_prefix(p@, t@),
{
    if p.len() == 0 || !matches_at(t, 0, p) {
        return false;
    }
    t.len() == p.len() || p[p.len() - 1] == '/' || t[p.len()] == '/'
}

/// `t` relative to its component prefix `p`.
pub fn strip_path_prefix(t: &Vec<char>, p: &Vec<char>) -> (r: Vec<char>)
    requires
        is_path_prefix(p@, t@),
    ensures
        r@ == relative_to(t@, p@),
{
    if t.len() == p.len() || p[p.len() - 1] == '/' {
        slice(t, p.len(), t.len())
    } else {
        slice(t, p.len() + 1, t.len())
    }
}

/// `b` appended to `a` as a further component.
pub fn join_path(a: &Vec<char>, b: &Vec<char>) -> (r: Vec<char>)
    ensures
        r@ == join(a@, b@),
{
    let mut r: Vec<char> = Vec::new();
    push_all(&mut r, a);
    if a.len() > 0 && a[a.len() - 1] != '/' {
        r.push('/');
    }
    push_all(&mut r, b);
    r
}

/// The last component of `s`, if it names one.
pub fn last_component(s: &Vec<char>) -> (r: Option<Vec<char>>)
    ensures
        r matches Some(n) ==> file_name(s@) == Some(n@),
        r is None ==> file_name(s@) is None,
{
    proof {
        lemma_last_index(s@, '/');
    }
    let start: usize = match find_last(s, '/') {
        Some(i) => {
            assert(i < s.len());
            i + 1
        },
        None => 0,
    };
    let n = slice(s, start, s.len());
    if n.len() == 0 || (n.len() == 1 && n[0] == '.') || (n.len() == 2 && n[0] == '.' && n[1] == '.') {
        assert(n.len() == 1 && n[0] == '.' ==> n@ =~= seq!['.']);
        assert(n.len() == 2 && n[0] == '.' && n[1] == '.' ==> n@ =~= seq!['.', '.']);
        return None;
    }
    assert(n@ != seq!['.']) by {
        if n@ == seq!['.'] {
            assert(n@.len() == 1 && n@[0] == '.');
        }
    }
    assert(n@ != seq!['.', '.']) by {
        if n@ == seq!['.', '.'] {
            assert(n@.len() == 2 && n@[0] == '.' && n@[1] == '.');
        }
    }
    Some(n)
}

/// The parent of `s`, if it has one.
pub fn parent_path(s: &Vec<char>) -> (r: Option<Vec<char>>)
    ensures
        r matches Some(p) ==> parent(s@) == Some(p@),
        r is None ==> parent(s@) is None,
{
    proof {
        lemma_last_index(s@, '/');
    }
    if s.len() == 0 || (s.len() == 1 && s[0] == '/') {
        assert(s.len() == 1 && s[0] == '/' ==> s@ =~= seq!['/']);
        return None;
    }
    assert(s@ != seq!['/']) by {
        if s@ == seq!['/'] {
            assert(s@.len() == 1 && s@[0] == '/');
        }
    }
    let i: usize = match find_last(s, '/') {
        Some(i) => i,
        None => {
            let e: Vec<char> = Vec::new();
            assert(e@ =~= Seq::<char>::empty());
            return Some(e);
        },
    };
    if i == 0 {
        let mut r: Vec<char> = Vec::new();
        r.push('/');
        assert(r@ =~= seq!['/']);
        Some(r)
    } else {
        Some(slice(s, 0, i))
    }
}

/// The file name `n` without its last extension.
pub fn file_stem(n: &Vec<char>) -> (r: Vec<char>)
    ensures
        r@ == stem(n@),
{
    proof {
        lemma_last_index(n@, '.');
    }
    match find_last(n, '.') {
        Some(k) if k > 0 => slice(n, 0, k),
        _ => {
            let r = slice(n, 0, n.len());
            assert(r@ =~= n@);
            r
        },
    }
}

/// Whether `p` is an absolute path already in the form that absolutizing
/// gives: it starts at the root, and has no empty, `.` or `..` component and
/// no trailing separator (the root itself excepted).
pub open spec fn is_plain_absolute(p: Seq<char>) -> bool {
    &&& p.len() > 0
    &&& p[0] == '/'
    &&& p.len() == 1 || p.last() != '/'
    &&& forall|i: int| 0 <= i < p.len() - 1 && p[i] == '/' ==> #[trigger] p[i + 1] != '/'
    &&& forall|i: int|
        0 <= i < p.len() && #[trigger] p[i] == '/' ==> {
            let c = p.subrange(i + 1, index_from(p, '/', i + 1));
            c != seq!['.'] && c != seq!['.', '.']
        }
}

/// Relies on `path_absolutize::Absolutize::absolutize`: `p` made absolute
/// against the current directory, `.` and `..` resolved without touching the
/// filesystem; none where the current directory cannot be read or the result
/// is not text. Every result starts at the root (the current directory is
/// absolute); a path already in absolute plain form comes back as it is (the
/// source returns the input itself when nothing changed). Otherwise the result
/// depends on the current directory.
#[verifier::external_body]
pub(crate) fn absolutize(p: &str) -> (r: Option<String>)
    ensures
        r matches Some(a) ==> a@.len() > 0 && a@[0] == '/',
        is_plain_absolute(p@) ==> (r matches Some(a) ==> a@ == p@),
{
    match std::path::Path::new(p).absolutize() {
        Ok(a) => match a.to_str() {
            Some(s) => Some(s.to_owned()),
            None => None,
        },
        Err(_) => None,
    }
}

} // verus!

//! Character-sequence helpers for the path strings that the overlay stores.
//!
//! Paths are kept as `Vec<char>` inside the library, so that their views are
//! plain `Seq<char>` values; `String` appears only at the public edges.
use vstd::prelude::*;

verus! {

/// The characters of a string slice, in order.
pub fn chars_of(s: &str) -> (out: Vec<char>)
    ensures
        out@ == s@,
{
    let mut out: Vec<char> = Vec::new();
    for c in it: s.chars()
        invariant
            out@ == it.seq().take(it.index() as int),
    {
        out.push(c);
    }
    out
}

/// Builds a `String` from its characters with `String`'s `FromIterator<char>`
/// impl; std documents that collecting chars yields the string of exactly those
/// chars, in order, which is what the contract claims.
#[verifier::external_body]
pub(crate) fn string_of(v: &Vec<char>) -> (s: String)
    ensures
        s@ == v@,
{
    v.iter().collect()
}

/// A copy of a character vector.
pub fn copy_chars(v: &Vec<char>) -> (out: Vec<char>)
    ensures
        out@ == v@,
{
    let mut out: Vec<char> = Vec::new();
    let mut i: usize = 0;
    while i < v.len()
        invariant
            i <= v.len(),
            out@ == v@.take(i as int),
        decreases v.len() - i,
    {
        out.push(v[i]);
        i = i + 1;
        assert(out@ =~= v@.take(i as int));
    }
    assert(out@ =~= v@);
    out
}

/// Whether two character vectors hold the same characters.
pub fn chars_eq(a: &Vec<char>, b: &Vec<char>) -> (r: bool)
    ensures
        r == (a@ == b@),
{
    if a.len() != b.len() {
        return false;
    }
    let mut i: usize = 0;
    while i < a.len()
        invariant
            a.len() == b.len(),
            i <= a.len(),
            forall|j: int| 0 <= j < i ==> a@[j] == b@[j],
        decreases a.len() - i,
    {
        if a[i] != b[i] {
            return false;
        }
        i = i + 1;
    }
    assert(a@ =~= b@);
    true
}

/// `p` is a prefix of `s`.
pub open spec fn is_prefix(p: Seq<char>, s: Seq<char>) -> bool {
    p.len() <= s.len() && s.subrange(0, p.len() as int) == p
}

/// Whether `p` is a prefix of `s`.
pub fn starts_with(s: &Vec<char>, p: &Vec<char>) -> (r: bool)
    ensures
        r == is_prefix(p@, s@),
{
    if p.len() > s.len() {
        return false;
    }
    let mut i: usize = 0;
    while i < p.len()
        invariant
            p.len() <= s.len(),
            i <= p.len(),
            forall|j: int| 0 <= j < i ==> s@[j] == p@[j],
        decreases p.len() - i,
    {
        if s[i] != p[i] {
            assert(s@.subrange(0, p.len() as int)[i as int] != p@[i as int]);
            return false;
        }
        i = i + 1;
    }
    assert(s@.subrange(0, p.len() as int) =~= p@);
    true
}

/// The concatenation of two character vectors.
pub fn concat(a: &Vec<char>, b: &Vec<char>) -> (out: Vec<char>)
    ensures
        out@ == a@ + b@,
{
    let mut out = copy_chars(a);
    let mut i: usize = 0;
    while i < b.len()
        invariant
            i <= b.len(),
            out@ == a@ + b@.take(i as int),
        decreases b.len() - i,
    {
        out.push(b[i]);
        i = i + 1;
        assert(out@ =~= a@ + b@.take(i as int));
    }
    assert(b@.take(b.len() as int) =~= b@);
    out
}

/// The characters of `v` from index `start` on.
pub fn suffix_from(v: &Vec<char>, start: usize) -> (out: Vec<char>)
    requires
        start <= v.len(),
    ensures
        out@ == v@.skip(start as int),
{
    let mut out: Vec<char> = Vec::new();
    let mut i: usize = start;
    while i < v.len()
        invariant
            start <= i <= v.len(),
            out@ == v@.subrange(start as int, i as int),
        decreases v.len() - i,
    {
        out.push(v[i]);
        i = i + 1;
        assert(out@ =~= v@.subrange(start as int, i as int));
    }
    assert(out@ =~= v@.skip(start as int));
    out
}

/// The characters of `v` in `[start, end)`.
pub fn slice_chars(v: &Vec<char>, start: usize, end: usize) -> (out: Vec<char>)
    requires
        start <= end <= v.len(),
    ensures
        out@ == v@.subrange(start as int, end as int),
{
    let mut out: Vec<char> = Vec::new();
    let mut i: usize = start;
    while i < end
        invariant
            start <= i <= end <= v.len(),
            out@ == v@.subrange(start as int, i as int),
        decreases end - i,
    {
        out.push(v[i]);
        i = i + 1;
        assert(out@ =~= v@.subrange(start as int, i as int));
    }
    out
}

/// `s` holds no `'/'`.
pub open spec fn no_slash(s: Seq<char>) -> bool {
    forall|i: int| 0 <= i < s.len() ==> s[i] != '/'
}

/// Whether `s` holds no `'/'`.
pub fn has_no_slash(s: &Vec<char>) -> (r: bool)
    ensures
        r == no_slash(s@),
{
    let mut i: usize = 0;
    while i < s.len()
        invariant
            i <= s.len(),
            forall|j: int| 0 <= j < i ==> s@[j] != '/',
        decreases s.len() - i,
    {
        if s[i] == '/' {
            return false;
        }
        i = i + 1;
    }
    true
}

/// The root path `"/"`.
pub open spec fn root_path() -> Seq<char> {
    seq!['/']
}

/// What every path directly inside `dir` starts with: `"/"` for the root,
/// `dir + "/"` otherwise.
pub open spec fn child_prefix(dir: Seq<char>) -> Seq<char> {
    if dir == root_path() {
        dir
    } else {
        dir.push('/')
    }
}

/// The path of the entry `name` inside the directory `dir`.
pub open spec fn join_path(dir: Seq<char>, name: Seq<char>) -> Seq<char> {
    child_prefix(dir) + name
}

/// `path` names an entry directly inside `dir`.
pub open spec fn is_child(path: Seq<char>, dir: Seq<char>) -> bool {
    is_prefix(child_prefix(dir), path) && no_slash(path.skip(child_prefix(dir).len() as int))
}

/// The name under which `path` appears inside `dir` (meaningful when
/// `is_child(path, dir)`).
pub open spec fn child_name(path: Seq<char>, dir: Seq<char>) -> Seq<char> {
    path.skip(child_prefix(dir).len() as int)
}

/// The root path as a vector.
pub fn root_chars() -> (out: Vec<char>)
    ensures
        out@ == root_path(),
{
    let mut out: Vec<char> = Vec::new();
    out.push('/');
    assert(out@ =~= root_path());
    out
}

/// `child_prefix(dir)`.
pub fn child_prefix_of(dir: &Vec<char>) -> (out: Vec<char>)
    ensures
        out@ == child_prefix(dir@),
{
    let root = root_chars();
    let mut out = copy_chars(dir);
    if !chars_eq(dir, &root) {
        out.push('/');
    }
    out
}

/// `join_path(dir, name)`.
pub fn join(dir: &Vec<char>, name: &Vec<char>) -> (out: Vec<char>)
    ensures
        out@ == join_path(dir@, name@),
{
    let prefix = child_prefix_of(dir);
    concat(&prefix, name)
}

/// Whether `path` is directly inside `dir`; when it is, also the name under
/// which it appears there.
pub fn child_of(path: &Vec<char>, dir: &Vec<char>) -> (r: Option<Vec<char>>)
    ensures
        r.is_some() == is_child(path@, dir@),
        r matches Some(n) ==> n@ == child_name(path@, dir@),
{
    let prefix = child_prefix_of(dir);
    if !starts_with(path, &prefix) {
        return None;
    }
    let rest = suffix_from(path, prefix.len());
    if has_no_slash(&rest) {
        Some(rest)
    } else {
        None
    }
}

/// Index where the last `'/'`-separated segment of `p` starts (`p.len()` when
/// `p` ends with `'/'`).
pub open spec fn seg_start(p: Seq<char>) -> int
    decreases p.len(),
{
    if p.len() == 0 {
        0
    } else if p.last() == '/' {
        p.len() as int
    } else {
        seg_start(p.drop_last())
    }
}

/// The final component of a Unix path, as `std::path::Path::file_name` gives
/// it: trailing `'/'` and `"."` components are skipped, and there is none when
/// the path is empty, the root, `"."`, or ends in `".."`.
pub open spec fn file_name_of(p: Seq<char>) -> Option<Seq<char>>
    decreases p.len(),
{
    if p.len() == 0 {
        None
    } else if p.last() == '/' {
        file_name_of(p.drop_last())
    } else {
        let k = seg_start(p);
        let seg = p.skip(k);
        if seg == seq!['.', '.'] {
            None
        } else if seg == seq!['.'] {
            if k <= 0 || k > p.len() {
                None
            } else {
                file_name_of(p.take(k - 1))
            }
        } else {
            Some(seg)
        }
    }
}

/// The name column stored for a path: its final component, or empty.
pub open spec fn name_of(p: Seq<char>) -> Seq<char> {
    match file_name_of(p) {
        Some(n) => n,
        None => Seq::empty(),
    }
}

/// The final path component of `p`, as `file_name_of` defines it.
pub fn file_name(p: &Vec<char>) -> (r: Option<Vec<char>>)
    ensures
        match r {
            Some(n) => file_name_of(p@) == Some(n@),
            None => file_name_of(p@) is None,
        },
{
    let mut end: usize = p.len();
    assert(p@.take(end as int) =~= p@);
    loop
        invariant
            end <= p.len(),
            file_name_of(p@.take(end as int)) == file_name_of(p@),
        decreases end,
    {
        let ghost t = p@.take(end as int);
        if end == 0 {
            return None;
        }
        if p[end - 1] == '/' {
            assert(t.drop_last() =~= p@.take(end - 1));
            end = end - 1;
            continue;
        }
        let mut k: usize = end;
        assert(t.take(k as int) =~= t);
        while k > 0 && p[k - 1] != '/'
            invariant
                k <= end <= p.len(),
                t == p@.take(end as int),
                seg_start(t) == seg_start(t.take(k as int)),
            decreases k,
        {
            assert(t.take(k as int).drop_last() =~= t.take(k - 1));
            k = k - 1;
        }
        assert(seg_start(t) == k) by {
            if k > 0 {
                assert(t.take(k as int).last() == '/');
            } else {
                assert(t.take(0) =~= Seq::<char>::empty());
            }
        }
        let ghost seg = t.skip(k as int);
        assert(seg =~= p@.subrange(k as int, end as int));
        if end - k == 2 && p[k] == '.' && p[k + 1] == '.' {
            assert(seg =~= seq!['.', '.']);
            return None;
        }
        if end - k == 1 && p[k] == '.' {
            assert(seg =~= seq!['.']);
            if k == 0 {
                return None;
            }
            assert(t.take(k - 1) =~= p@.take(k - 1));
            end = k - 1;
            continue;
        }
        assert(seg != seq!['.', '.']) by {
            if seg == seq!['.', '.'] {
                assert(seg.len() == 2 && seg[0] == '.' && seg[1] == '.');
            }
        }
        assert(seg != seq!['.']) by {
            if seg == seq!['.'] {
                assert(seg.len() == 1 && seg[0] == '.');
            }
        }
        let out = slice_chars(p, k, end);
        return Some(out);
    }
}

/// `name_of(p)`, the name column stored for a path.
pub fn name_for(p: &Vec<char>) -> (out: Vec<char>)
    ensures
        out@ == name_of(p@),
{
    match file_name(p) {
        Some(n) => n,
        None => Vec::new(),
    }
}

} // verus!

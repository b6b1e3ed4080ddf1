//! Decisions of the command-line front end: reading the answer to a yes/no
//! question, finding a mount point in the system's mount table, and what to do
//! with a mount left behind by an earlier run.
use vstd::prelude::*;
use crate::text::chars_of;

verus! {

/// The characters that Unicode calls white space (`char::is_whitespace`).
pub open spec fn is_space(c: char) -> bool {
    let u = c as u32;
    (0x9 <= u <= 0xd) || u == 0x20 || u == 0x85 || u == 0xa0 || u == 0x1680 || (0x2000 <= u <= 0x200a)
        || u == 0x2028 || u == 0x2029 || u == 0x202f || u == 0x205f || u == 0x3000
}

/// Whether `c` is white space.
pub fn space(c: char) -> (r: bool)
    ensures
        r == is_space(c),
{
    let u = c as u32;
    (0x9 <= u && u <= 0xd) || u == 0x20 || u == 0x85 || u == 0xa0 || u == 0x1680 || (0x2000 <= u && u
        <= 0x200a) || u == 0x2028 || u == 0x2029 || u == 0x202f || u == 0x205f || u == 0x3000
}

/// `s` without the white space at its start and end (`str::trim`).
#[verifier::opaque]
pub open spec fn trimmed(s: Seq<char>) -> Seq<char>
    decreases s.len(),
{
    if s.len() == 0 {
        s
    } else if is_space(s[0]) {
        trimmed(s.skip(1))
    } else if is_space(s.last()) {
        trimmed(s.drop_last())
    } else {
        s
    }
}

proof fn lemma_trim_front(s: Seq<char>)
    requires
        s.len() > 0,
        is_space(s[0]),
    ensures
        trimmed(s) == trimmed(s.skip(1)),
{
    reveal(trimmed);
}

proof fn lemma_trim_back(s: Seq<char>)
    requires
        s.len() > 0,
        !is_space(s[0]),
        is_space(s.last()),
    ensures
        trimmed(s) == trimmed(s.drop_last()),
{
    reveal(trimmed);
}

proof fn lemma_trim_done(s: Seq<char>)
    requires
        s.len() == 0 || (!is_space(s[0]) && !is_space(s.last())),
    ensures
        trimmed(s) == s,
{
    reveal(trimmed);
}

/// `c` is `lower` or its capital.
pub open spec fn is_letter(c: char, lower: char, upper: char) -> bool {
    c == lower || c == upper
}

/// The answer is yes: after trimming it is `y` or `yes`, in any case.
pub open spec fn is_yes(s: Seq<char>) -> bool {
    let t = trimmed(s);
    (t.len() == 1 && is_letter(t[0], 'y', 'Y')) || (t.len() == 3 && is_letter(t[0], 'y', 'Y')
        && is_letter(t[1], 'e', 'E') && is_letter(t[2], 's', 'S'))
}

/// Whether the answer to a yes/no question is yes.
pub fn confirmed(response: &str) -> (r: bool)
    ensures
        r == is_yes(response@),
{
    let s = chars_of(response);
    let mut lo: usize = 0;
    let mut hi: usize = s.len();
    assert(s@.subrange(0, s.len() as int) =~= s@);
    while lo < hi && space(s[lo])
        invariant
            lo <= hi == s.len(),
            trimmed(s@) == trimmed(s@.subrange(lo as int, hi as int)),
        decreases hi - lo,
    {
        assert(s@.subrange(lo as int, hi as int).skip(1) =~= s@.subrange(lo + 1, hi as int));
        proof {
            lemma_trim_front(s@.subrange(lo as int, hi as int));
        }
        lo = lo + 1;
    }
    while lo < hi && space(s[hi - 1])
        invariant
            lo <= hi <= s.len(),
            lo < hi ==> !is_space(s@[lo as int]),
            trimmed(s@) == trimmed(s@.subrange(lo as int, hi as int)),
        decreases hi - lo,
    {
        assert(s@.subrange(lo as int, hi as int).drop_last() =~= s@.subrange(lo as int, hi - 1));
        proof {
            lemma_trim_back(s@.subrange(lo as int, hi as int));
        }
        hi = hi - 1;
    }
    let ghost t = s@.subrange(lo as int, hi as int);
    proof {
        lemma_trim_done(t);
    }
    let n = hi - lo;
    if n == 1 {
        s[lo] == 'y' || s[lo] == 'Y'
    } else if n == 3 {
        (s[lo] == 'y' || s[lo] == 'Y') && (s[lo + 1] == 'e' || s[lo + 1] == 'E') && (s[lo + 2] == 's'
            || s[lo + 2] == 'S')
    } else {
        false
    }
}

/// What to do with a mount recorded by an earlier run.
#[derive(Debug, Clone, Copy, PartialEq, Eq, Structural)]
pub enum StaleMount {
    /// Still mounted and its server answers: leave it.
    Keep,
    /// Mounted but its server is gone: unmount it and forget it.
    Unmount,
    /// No longer mounted: forget it.
    Forget,
}

/// What to do with a recorded mount, given whether it is still mounted and
/// whether its server still answers.
pub fn stale_mount_action(mounted: bool, server_alive: bool) -> (r: StaleMount)
    ensures
        r == (if !mounted {
            StaleMount::Forget
        } else if server_alive {
            StaleMount::Keep
        } else {
            StaleMount::Unmount
        }),
{
    if mounted {
        if server_alive {
            StaleMount::Keep
        } else {
            StaleMount::Unmount
        }
    } else {
        StaleMount::Forget
    }
}

/// `pat` occurs in `line`.
pub open spec fn has_sub(line: Seq<char>, pat: Seq<char>) -> bool {
    exists|i: int| 0 <= i && i + pat.len() <= line.len() && #[trigger] line.subrange(i, i + pat.len()) == pat
}

/// `s[i..j]` is a line of `s` (`str::lines`): it starts the text or follows a
/// `'\n'`, ends the text or is followed by one, holds none, and is not the
/// empty remainder after a final `'\n'`.
pub open spec fn is_line(s: Seq<char>, i: int, j: int) -> bool {
    &&& 0 <= i <= j <= s.len()
    &&& (i == 0 || s[i - 1] == '\n')
    &&& (j == s.len() || s[j] == '\n')
    &&& forall|k: int| i <= k < j ==> s[k] != '\n'
    &&& (j < s.len() || i < j)
}

/// The text of the line `s[i..j]`: without the `'\r'` of a `"\r\n"` ending.
pub open spec fn line_text(s: Seq<char>, i: int, j: int) -> Seq<char> {
    if j < s.len() && i < j && s[j - 1] == '\r' {
        s.subrange(i, j - 1)
    } else {
        s.subrange(i, j)
    }
}

/// Some line of the mount table `table` holds `path`.
pub open spec fn listed_in(table: Seq<char>, path: Seq<char>) -> bool {
    exists|i: int, j: int| is_line(table, i, j) && has_sub(#[trigger] line_text(table, i, j), path)
}

/// Whether `pat` occurs in `s[start..end]`.
fn occurs_in(s: &Vec<char>, start: usize, end: usize, pat: &Vec<char>) -> (r: bool)
    requires
        start <= end <= s.len(),
    ensures
        r == has_sub(s@.subrange(start as int, end as int), pat@),
{
    let ghost line = s@.subrange(start as int, end as int);
    if pat.len() > end - start {
        return false;
    }
    if pat.len() == 0 {
        assert(line.subrange(0, 0 + pat.len()) =~= pat@);
        return true;
    }
    let last = (end - start) - pat.len();
    let mut i: usize = 0;
    while i < last + 1
        invariant
            start <= end <= s.len(),
            last + pat.len() == end - start,
            pat.len() > 0,
            i <= last + 1,
            line == s@.subrange(start as int, end as int),
            forall|a: int| 0 <= a < i ==> #[trigger] line.subrange(a, a + pat.len()) != pat@,
        decreases last + 1 - i,
    {
        let mut k: usize = 0;
        while k < pat.len() && s[start + i + k] == pat[k]
            invariant
                start <= end <= s.len(),
                i <= last,
                last + pat.len() == end - start,
                k <= pat.len(),
                forall|b: int| 0 <= b < k ==> s@[start + i + b] == pat@[b],
            decreases pat.len() - k,
        {
            k = k + 1;
        }
        if k == pat.len() {
            assert(line.subrange(i as int, i + pat.len()) =~= pat@);
            return true;
        }
        assert(line.subrange(i as int, i + pat.len())[k as int] != pat@[k as int]);
        i = i + 1;
    }
    assert forall|a: int| 0 <= a && a + pat.len() <= line.len() implies #[trigger] line.subrange(
        a,
        a + pat.len(),
    ) != pat@ by {
        assert(a <= last);
    }
    false
}

/// The lines of `table` are unique by their end.
proof fn lemma_line_start(s: Seq<char>, i: int, i2: int, j: int)
    requires
        is_line(s, i, j),
        is_line(s, i2, j),
    ensures
        i == i2,
{
    if i < i2 {
        assert(s[i2 - 1] != '\n');
    } else if i2 < i {
        assert(s[i - 1] != '\n');
    }
}

/// Whether some line of the mount table `table` holds `path`.
pub fn mount_listed(table: &str, path: &str) -> (r: bool)
    ensures
        r == listed_in(table@, path@),
{
    let s = chars_of(table);
    let pat = chars_of(path);
    let mut start: usize = 0;
    let mut k: usize = 0;
    while k < s.len()
        invariant
            start <= k <= s.len(),
            s@ == table@,
            pat@ == path@,
            start == 0 || s@[start - 1] == '\n',
            forall|a: int| start <= a < k ==> s@[a] != '\n',
            forall|i: int, j: int|
                is_line(s@, i, j) && j < k ==> !has_sub(#[trigger] line_text(s@, i, j), pat@),
        decreases s.len() - k,
    {
        if s[k] == '\n' {
            let end = if start < k && s[k - 1] == '\r' {
                k - 1
            } else {
                k
            };
            assert(is_line(s@, start as int, k as int));
            assert(line_text(s@, start as int, k as int) == s@.subrange(start as int, end as int));
            if occurs_in(&s, start, end, &pat) {
                return true;
            }
            proof {
                assert forall|i: int, j: int| is_line(s@, i, j) && j < k + 1 implies !has_sub(
                    #[trigger] line_text(s@, i, j),
                    pat@,
                ) by {
                    if j == k {
                        lemma_line_start(s@, i, start as int, j);
                    }
                }
            }
            start = k + 1;
        } else {
            proof {
                assert forall|i: int, j: int| is_line(s@, i, j) && j < k + 1 implies !has_sub(
                    #[trigger] line_text(s@, i, j),
                    pat@,
                ) by {
                    if j == k {
                        assert(s@[j] != '\n');
                    }
                }
            }
        }
        k = k + 1;
    }
    let n = s.len();
    if start < n {
        assert(is_line(s@, start as int, n as int));
        assert(line_text(s@, start as int, n as int) == s@.subrange(start as int, n as int));
        if occurs_in(&s, start, n, &pat) {
            return true;
        }
    }
    assert forall|i: int, j: int| is_line(s@, i, j) implies !has_sub(#[trigger] line_text(s@, i, j), pat@) by {
        if j == n {
            lemma_line_start(s@, i, start as int, j);
        }
    }
    false
}

} // verus!

//! What the overlay would change in the base directory: the list of changes
//! shown to the user (sorted), and the steps that apply them.
use vstd::prelude::*;
use crate::base::{BaseLayer, BaseView};
use crate::db::{strings_view, DbError, ItemType};
use crate::overlay::{OverlayError, OverlayFs, OverlayView};
use crate::text::{chars_of, chars_eq, concat, copy_chars, is_prefix, starts_with, string_of};

verus! {

broadcast use vstd::seq_lib::group_to_multiset_ensures;

/// `a` comes before `b`, or equals it, comparing character by character by
/// code point (for UTF-8 text this is the order of the bytes too).
pub open spec fn chars_le(a: Seq<char>, b: Seq<char>) -> bool
    decreases a.len(),
{
    if a.len() == 0 {
        true
    } else if b.len() == 0 {
        false
    } else if a[0] != b[0] {
        (a[0] as u32) < (b[0] as u32)
    } else {
        chars_le(a.skip(1), b.skip(1))
    }
}

/// Every line comes before or equals every later one.
pub open spec fn sorted_lines(s: Seq<Seq<char>>) -> bool {
    forall|i: int, j: int| 0 <= i < j < s.len() ==> chars_le(#[trigger] s[i], #[trigger] s[j])
}

/// The plain values of character vectors.
pub open spec fn lines_view(v: Seq<Vec<char>>) -> Seq<Seq<char>> {
    v.map_values(|l: Vec<char>| l@)
}

/// Of two lines, one comes before or equals the other.
pub proof fn lemma_chars_le_total(a: Seq<char>, b: Seq<char>)
    ensures
        chars_le(a, b) || chars_le(b, a),
    decreases a.len(),
{
    if a.len() > 0 && b.len() > 0 {
        if a[0] == b[0] {
            lemma_chars_le_total(a.skip(1), b.skip(1));
        } else {
            vstd::utf8::char_u32_cast(a[0], a[0] as u32);
            vstd::utf8::char_u32_cast(b[0], b[0] as u32);
        }
    }
}

/// The order of lines is transitive.
pub proof fn lemma_chars_le_trans(a: Seq<char>, b: Seq<char>, c: Seq<char>)
    requires
        chars_le(a, b),
        chars_le(b, c),
    ensures
        chars_le(a, c),
    decreases a.len(),
{
    if a.len() > 0 && b.len() > 0 && c.len() > 0 && a[0] == b[0] && b[0] == c[0] {
        lemma_chars_le_trans(a.skip(1), b.skip(1), c.skip(1));
    }
}

/// Two lines that each come before or equal the other are the same.
pub proof fn lemma_chars_le_antisym(a: Seq<char>, b: Seq<char>)
    requires
        chars_le(a, b),
        chars_le(b, a),
    ensures
        a == b,
    decreases a.len(),
{
    if a.len() > 0 && b.len() > 0 {
        lemma_chars_le_antisym(a.skip(1), b.skip(1));
        assert(a =~= seq![a[0]] + a.skip(1));
        assert(b =~= seq![b[0]] + b.skip(1));
    } else {
        assert(a =~= b);
    }
}

/// Whether `a` comes before or equals `b`.
pub fn line_le(a: &Vec<char>, b: &Vec<char>) -> (r: bool)
    ensures
        r == chars_le(a@, b@),
{
    let mut i: usize = 0;
    assert(a@.skip(0) =~= a@);
    assert(b@.skip(0) =~= b@);
    while i < a.len() && i < b.len()
        invariant
            i <= a.len(),
            i <= b.len(),
            chars_le(a@, b@) == chars_le(a@.skip(i as int), b@.skip(i as int)),
        decreases a.len() - i,
    {
        assert(a@.skip(i as int)[0] == a@[i as int]);
        assert(b@.skip(i as int)[0] == b@[i as int]);
        if a[i] != b[i] {
            return (a[i] as u32) < (b[i] as u32);
        }
        assert(a@.skip(i as int).skip(1) =~= a@.skip(i + 1));
        assert(b@.skip(i as int).skip(1) =~= b@.skip(i + 1));
        i = i + 1;
    }
    assert(a@.skip(i as int).len() == a.len() - i);
    i == a.len()
}

/// The lines in order: the same lines, each before or equal to the next.
pub fn sort_lines(lines: &Vec<Vec<char>>) -> (r: Vec<Vec<char>>)
    ensures
        lines_view(r@).to_multiset() == lines_view(lines@).to_multiset(),
        sorted_lines(lines_view(r@)),
{
    let mut out: Vec<Vec<char>> = Vec::new();
    let mut i: usize = 0;
    assert(lines_view(lines@).take(0) =~= lines_view(out@));
    while i < lines.len()
        invariant
            i <= lines.len(),
            lines_view(out@).to_multiset() == lines_view(lines@).take(i as int).to_multiset(),
            sorted_lines(lines_view(out@)),
        decreases lines.len() - i,
    {
        let x = &lines[i];
        let mut j: usize = 0;
        while j < out.len() && line_le(&out[j], x)
            invariant
                j <= out.len(),
                forall|k: int| 0 <= k < j ==> chars_le(#[trigger] lines_view(out@)[k], x@),
            decreases out.len() - j,
        {
            j = j + 1;
        }
        let ghost before = lines_view(out@);
        proof {
            if j < out.len() {
                assert(!chars_le(before[j as int], x@));
                lemma_chars_le_total(before[j as int], x@);
            }
        }
        out.insert(j, copy_chars(x));
        proof {
            let after = lines_view(out@);
            assert(after =~= before.insert(j as int, x@));
            assert(lines_view(lines@).take(i + 1) =~= lines_view(lines@).take(i as int).push(x@));
            assert forall|a: int, b: int| 0 <= a < b < after.len() implies chars_le(
                #[trigger] after[a],
                #[trigger] after[b],
            ) by {
                if b < j {
                } else if b == j {
                    assert(chars_le(before[a], x@));
                } else if a < j {
                    assert(chars_le(before[a], x@));
                    assert(chars_le(x@, before[j as int]));
                    if b - 1 > j {
                        assert(chars_le(before[j as int], before[b - 1]));
                        lemma_chars_le_trans(x@, before[j as int], before[b - 1]);
                    }
                    lemma_chars_le_trans(before[a], x@, before[b - 1]);
                } else if a == j {
                    assert(chars_le(x@, before[j as int]));
                    if b - 1 > j {
                        assert(chars_le(before[j as int], before[b - 1]));
                        lemma_chars_le_trans(x@, before[j as int], before[b - 1]);
                    }
                } else {
                    assert(chars_le(before[a - 1], before[b - 1]));
                }
            }
        }
        i = i + 1;
    }
    assert(lines_view(lines@).take(lines.len() as int) =~= lines_view(lines@));
    out
}

/// The directory that git keeps its data in, `"/.git"`.
pub open spec fn git_dir() -> Seq<char> {
    seq!['/', '.', 'g', 'i', 't']
}

/// `p` is git's directory or lies inside it; such paths are left out of the
/// list of changes.
pub open spec fn is_git_path(p: Seq<char>) -> bool {
    p == git_dir() || is_prefix(git_dir().push('/'), p)
}

/// `"  M "` with the `M` in yellow: the path exists in the base.
pub open spec fn modified_mark() -> Seq<char> {
    seq![' ', ' ', '\x1b', '[', '3', '3', 'm', 'M', '\x1b', '[', '0', 'm', ' ']
}

/// `"  A "` with the `A` in green: the path is new.
pub open spec fn added_mark() -> Seq<char> {
    seq![' ', ' ', '\x1b', '[', '3', '2', 'm', 'A', '\x1b', '[', '0', 'm', ' ']
}

/// `"  D "` with the `D` in red, then the blank type column: the path is
/// deleted.
pub open spec fn deleted_mark() -> Seq<char> {
    seq![
        ' ', ' ', '\x1b', '[', '3', '1', 'm', 'D', '\x1b', '[', '0', 'm', ' ', ' ', ' ', ' ', ' ', ' ', ' ', ' ', ' ', ' ',
    ]
}

/// The type's name, padded with spaces to eight characters.
pub open spec fn type_label(t: ItemType) -> Seq<char> {
    match t {
        ItemType::File => seq!['f', 'i', 'l', 'e', ' ', ' ', ' ', ' '],
        ItemType::Directory => seq!['d', 'i', 'r', ' ', ' ', ' ', ' ', ' '],
        ItemType::Symlink => seq!['s', 'y', 'm', 'l', 'i', 'n', 'k', ' '],
    }
}

/// The line for an upper-layer path of type `t`; `in_base` tells whether the
/// base has the path.
pub open spec fn change_line(p: Seq<char>, t: ItemType, in_base: bool) -> Seq<char> {
    (if in_base {
        modified_mark()
    } else {
        added_mark()
    }) + type_label(t) + seq![' '] + p
}

/// The line for a whited-out path.
pub open spec fn deleted_line(p: Seq<char>) -> Seq<char> {
    deleted_mark() + p
}

/// The lines for the upper layer's paths, in order, leaving out git's.
pub open spec fn upper_lines(paths: Seq<(Seq<char>, ItemType)>, b: BaseView) -> Seq<Seq<char>>
    decreases paths.len(),
{
    if paths.len() == 0 {
        Seq::empty()
    } else {
        let rest = upper_lines(paths.drop_last(), b);
        let (p, t) = paths.last();
        if is_git_path(p) {
            rest
        } else {
            rest.push(change_line(p, t, b.has(p)))
        }
    }
}

/// The lines for the whited-out paths, in order, leaving out git's.
pub open spec fn deleted_lines(ws: Seq<Seq<char>>) -> Seq<Seq<char>>
    decreases ws.len(),
{
    if ws.len() == 0 {
        Seq::empty()
    } else {
        let rest = deleted_lines(ws.drop_last());
        if is_git_path(ws.last()) {
            rest
        } else {
            rest.push(deleted_line(ws.last()))
        }
    }
}

/// Every change the overlay holds, as lines: its paths, then its whiteouts.
pub open spec fn change_lines(v: OverlayView, b: BaseView) -> Seq<Seq<char>> {
    upper_lines(v.db.all_paths(), b) + deleted_lines(v.db.whiteouts)
}

fn git_dir_chars() -> (r: Vec<char>)
    ensures
        r@ == git_dir(),
{
    let r = chars_of("/.git");
    proof {
        reveal_strlit("/.git");
    }
    assert(r@ =~= git_dir());
    r
}

/// Whether `p` is git's directory or lies inside it.
pub fn is_git(p: &Vec<char>) -> (r: bool)
    ensures
        r == is_git_path(p@),
{
    let g = git_dir_chars();
    let mut gs = copy_chars(&g);
    gs.push('/');
    chars_eq(p, &g) || starts_with(p, &gs)
}

fn mark_chars(in_base: bool) -> (r: Vec<char>)
    ensures
        r@ == (if in_base {
            modified_mark()
        } else {
            added_mark()
        }),
{
    if in_base {
        let r = chars_of("  \x1b[33mM\x1b[0m ");
        proof {
            reveal_strlit("  \x1b[33mM\x1b[0m ");
        }
        assert(r@ =~= modified_mark());
        r
    } else {
        let r = chars_of("  \x1b[32mA\x1b[0m ");
        proof {
            reveal_strlit("  \x1b[32mA\x1b[0m ");
        }
        assert(r@ =~= added_mark());
        r
    }
}

fn deleted_mark_chars() -> (r: Vec<char>)
    ensures
        r@ == deleted_mark(),
{
    let r = chars_of("  \x1b[31mD\x1b[0m          ");
    proof {
        reveal_strlit("  \x1b[31mD\x1b[0m          ");
    }
    assert(r@ =~= deleted_mark());
    r
}

fn label_chars(t: ItemType) -> (r: Vec<char>)
    ensures
        r@ == type_label(t),
{
    match t {
        ItemType::File => {
            let r = chars_of("file    ");
            proof {
                reveal_strlit("file    ");
            }
            assert(r@ =~= type_label(t));
            r
        },
        ItemType::Directory => {
            let r = chars_of("dir     ");
            proof {
                reveal_strlit("dir     ");
            }
            assert(r@ =~= type_label(t));
            r
        },
        ItemType::Symlink => {
            let r = chars_of("symlink ");
            proof {
                reveal_strlit("symlink ");
            }
            assert(r@ =~= type_label(t));
            r
        },
    }
}

/// The list of changes the overlay holds, sorted: `M` for a path of the upper
/// layer that the base has, `A` for one it lacks, `D` for a whiteout, git's
/// own paths left out. `base` holds the paths that exist in the base.
pub fn get_overlay_changes(overlay: &OverlayFs, base: &BaseLayer) -> (r: Vec<String>)
    requires
        base.wf(),
    ensures
        strings_view(r@).to_multiset() == change_lines(overlay@, base@).to_multiset(),
        sorted_lines(strings_view(r@)),
{
    let inodes = overlay.get_all_inodes();
    let ghost items = overlay@.db.all_paths();
    let mut lines: Vec<Vec<char>> = Vec::new();
    let mut i: usize = 0;
    assert(items.take(0) =~= Seq::<(Seq<char>, ItemType)>::empty());
    assert(lines_view(lines@) =~= Seq::<Seq<char>>::empty());
    while i < inodes.len()
        invariant
            base.wf(),
            i <= inodes.len(),
            crate::db::typed_paths_view(inodes@) == items,
            lines_view(lines@) == upper_lines(items.take(i as int), base@),
        decreases inodes.len() - i,
    {
        let p = chars_of(inodes[i].0.as_str());
        let t = inodes[i].1;
        assert(items[i as int] == (p@, t));
        assert(items.take(i + 1).drop_last() =~= items.take(i as int));
        if !is_git(&p) {
            let in_base = base.find(&p).is_some();
            let m = mark_chars(in_base);
            let l = label_chars(t);
            let mut sp: Vec<char> = Vec::new();
            sp.push(' ');
            let head = concat(&concat(&m, &l), &sp);
            let line = concat(&head, &p);
            let ghost before = lines_view(lines@);
            lines.push(line);
            assert(lines_view(lines@) =~= before.push(line@));
            assert(line@ =~= change_line(p@, t, base@.has(p@)));
        }
        i = i + 1;
    }
    assert(items.take(inodes.len() as int) =~= items);
    let ghost up = lines_view(lines@);
    let whiteouts = overlay.get_all_whiteouts();
    let ghost ws = overlay@.db.whiteouts;
    let mut k: usize = 0;
    assert(ws.take(0) =~= Seq::<Seq<char>>::empty());
    assert(up + deleted_lines(ws.take(0)) =~= up);
    while k < whiteouts.len()
        invariant
            k <= whiteouts.len(),
            strings_view(whiteouts@) == ws,
            lines_view(lines@) == up + deleted_lines(ws.take(k as int)),
        decreases whiteouts.len() - k,
    {
        let p = chars_of(whiteouts[k].as_str());
        assert(ws[k as int] == p@);
        assert(ws.take(k + 1).drop_last() =~= ws.take(k as int));
        if !is_git(&p) {
            let line = concat(&deleted_mark_chars(), &p);
            let ghost before = lines_view(lines@);
            lines.push(line);
            assert(lines_view(lines@) =~= before.push(line@));
            assert(up + deleted_lines(ws.take(k + 1)) =~= (up + deleted_lines(ws.take(k as int))).push(line@));
        } else {
            assert(up + deleted_lines(ws.take(k + 1)) =~= up + deleted_lines(ws.take(k as int)));
        }
        k = k + 1;
    }
    assert(ws.take(whiteouts.len() as int) =~= ws);
    let sorted = sort_lines(&lines);
    let mut out: Vec<String> = Vec::new();
    let mut j: usize = 0;
    while j < sorted.len()
        invariant
            j <= sorted.len(),
            strings_view(out@) == lines_view(sorted@).take(j as int),
        decreases sorted.len() - j,
    {
        let ghost before = strings_view(out@);
        out.push(string_of(&sorted[j]));
        assert(strings_view(out@) =~= before.push(sorted@[j as int]@));
        assert(lines_view(sorted@).take(j + 1) =~= lines_view(sorted@).take(j as int).push(sorted@[j as int]@));
        j = j + 1;
    }
    assert(lines_view(sorted@).take(sorted.len() as int) =~= lines_view(sorted@));
    out
}

/// One step of writing the overlay's changes into the base directory; paths
/// are relative to the base directory.
#[derive(Debug, Clone)]
pub enum ApplyStep {
    /// Create the directory, with any missing parents.
    CreateDir(String),
    /// Create the directories above the path.
    CreateParent(String),
    /// Write the file with these contents.
    WriteFile(String, Vec<u8>),
    /// Set the file's permission bits.
    SetMode(String, u32),
    /// Replace whatever is at the path with a symlink to the target.
    PlaceSymlink(String, String),
    /// Remove the file, or the directory with all it holds, if it exists.
    RemovePath(String),
}

/// A step as plain values.
pub enum StepView {
    CreateDir(Seq<char>),
    CreateParent(Seq<char>),
    WriteFile(Seq<char>, Seq<u8>),
    SetMode(Seq<char>, u32),
    PlaceSymlink(Seq<char>, Seq<char>),
    RemovePath(Seq<char>),
}

/// The plain values of a step.
pub open spec fn step_view(s: ApplyStep) -> StepView {
    match s {
        ApplyStep::CreateDir(p) => StepView::CreateDir(p@),
        ApplyStep::CreateParent(p) => StepView::CreateParent(p@),
        ApplyStep::WriteFile(p, d) => StepView::WriteFile(p@, d@),
        ApplyStep::SetMode(p, m) => StepView::SetMode(p@, m),
        ApplyStep::PlaceSymlink(p, t) => StepView::PlaceSymlink(p@, t@),
        ApplyStep::RemovePath(p) => StepView::RemovePath(p@),
    }
}

/// The plain values of steps.
pub open spec fn steps_view(v: Seq<ApplyStep>) -> Seq<StepView> {
    v.map_values(|s: ApplyStep| step_view(s))
}

/// The steps, and the failure that cut them short, if one did.
pub struct ApplyPlan {
    pub steps: Vec<ApplyStep>,
    pub error: Option<OverlayError>,
}

/// A path relative to the base directory: without its leading `'/'`.
pub open spec fn rel_path(p: Seq<char>) -> Seq<char> {
    if p.len() > 0 && p[0] == '/' {
        p.skip(1)
    } else {
        p
    }
}

/// The base that upper-layer paths are looked up against: an empty one.
pub open spec fn no_base() -> BaseView {
    BaseView { entries: Seq::empty() }
}

/// The steps for the upper-layer path `p` of type `t`: a directory is created;
/// a file gets its parents, its contents and its permission bits (found
/// through a lookup from the root); a symlink gets its parents and then its
/// target. The overlay's state after the lookups, and the failure that stopped
/// the steps, if any.
pub open spec fn item_steps(v: OverlayView, p: Seq<char>, t: ItemType) -> (
    OverlayView,
    Seq<StepView>,
    Option<OverlayError>,
) {
    let rel = rel_path(p);
    match t {
        ItemType::Directory => (v, seq![StepView::CreateDir(rel)], None),
        ItemType::File => {
            let s0 = seq![StepView::CreateParent(rel)];
            if !(v.db.has_path(p) && v.db.row_at(p).data is Some) {
                (v, s0, Some(OverlayError::Db(DbError::NoRows)))
            } else {
                let s1 = s0.push(StepView::WriteFile(rel, v.db.row_at(p).data.unwrap()));
                let (v1, l) = v.lookup(1, rel, no_base());
                match l {
                    Err(e) => (v1, s1, Some(e)),
                    Ok(ino) => match v1.getattr(ino, no_base()) {
                        Err(e) => (v1, s1, Some(e)),
                        Ok(a) => (v1, s1.push(StepView::SetMode(rel, a.mode)), None),
                    },
                }
            }
        },
        ItemType::Symlink => {
            let s0 = seq![StepView::CreateParent(rel)];
            let (v1, l) = v.lookup(1, rel, no_base());
            match l {
                Err(e) => (v1, s0, Some(e)),
                Ok(ino) => match v1.readlink(ino, no_base()) {
                    Err(e) => (v1, s0, Some(e)),
                    Ok(target) => (v1, s0.push(StepView::PlaceSymlink(rel, target)), None),
                },
            }
        },
    }
}

/// The steps for the upper-layer paths `items`, in order, up to the first
/// failure.
pub open spec fn items_steps(v: OverlayView, items: Seq<(Seq<char>, ItemType)>) -> (
    OverlayView,
    Seq<StepView>,
    Option<OverlayError>,
)
    decreases items.len(),
{
    if items.len() == 0 {
        (v, Seq::empty(), None)
    } else {
        let (v1, s1, e1) = items_steps(v, items.drop_last());
        if e1 is Some {
            (v1, s1, e1)
        } else {
            let (v2, s2, e2) = item_steps(v1, items.last().0, items.last().1);
            (v2, s1 + s2, e2)
        }
    }
}

/// Removing every whited-out path, in order.
pub open spec fn removals(ws: Seq<Seq<char>>) -> Seq<StepView> {
    ws.map_values(|w: Seq<char>| StepView::RemovePath(rel_path(w)))
}

/// All the steps that write the overlay's changes into the base directory:
/// those for its paths, then, when none failed, a removal for each whiteout.
pub open spec fn apply_steps(v: OverlayView) -> (OverlayView, Seq<StepView>, Option<OverlayError>) {
    let (v1, s, e) = items_steps(v, v.db.all_paths());
    if e is Some {
        (v1, s, e)
    } else {
        (v1, s + removals(v.db.whiteouts), None)
    }
}

/// `p` without its leading `'/'`.
fn rel_of(p: &Vec<char>) -> (r: Vec<char>)
    ensures
        r@ == rel_path(p@),
{
    if p.len() > 0 && p[0] == '/' {
        crate::text::suffix_from(p, 1)
    } else {
        copy_chars(p)
    }
}

/// The steps for one upper-layer path, appended to `out`.
fn push_item_steps(overlay: &mut OverlayFs, p: &Vec<char>, t: ItemType, out: &mut Vec<ApplyStep>) -> (r: Option<
    OverlayError,
>)
    requires
        old(overlay).wf(),
    ensures
        final(overlay).wf(),
        final(overlay)@ == item_steps(old(overlay)@, p@, t).0,
        steps_view(final(out)@) == steps_view(old(out)@) + item_steps(old(overlay)@, p@, t).1,
        r == item_steps(old(overlay)@, p@, t).2,
{
    let ghost start = steps_view(out@);
    let rel = rel_of(p);
    let rs = string_of(&rel);
    let none = BaseLayer::new();
    assert(none@ == no_base());
    match t {
        ItemType::Directory => {
            out.push(ApplyStep::CreateDir(rs));
            assert(steps_view(out@) =~= start + seq![StepView::CreateDir(rel@)]);
            None
        },
        ItemType::File => {
            out.push(ApplyStep::CreateParent(string_of(&rel)));
            let ghost s0 = seq![StepView::CreateParent(rel@)];
            assert(steps_view(out@) =~= start + s0);
            let data = match overlay.read_file_data(string_of(p).as_str()) {
                Ok(d) => d,
                Err(e) => {
                    return Some(e);
                },
            };
            out.push(ApplyStep::WriteFile(string_of(&rel), data));
            let ghost s1 = s0.push(StepView::WriteFile(rel@, data@));
            assert(steps_view(out@) =~= start + s1);
            let ino = match overlay.lookup(1, rs.as_str(), &none) {
                Ok(i) => i,
                Err(e) => {
                    return Some(e);
                },
            };
            match overlay.getattr(ino, &none) {
                Err(e) => Some(e),
                Ok(a) => {
                    out.push(ApplyStep::SetMode(string_of(&rel), a.mode));
                    assert(steps_view(out@) =~= start + s1.push(StepView::SetMode(rel@, a.mode)));
                    None
                },
            }
        },
        ItemType::Symlink => {
            out.push(ApplyStep::CreateParent(string_of(&rel)));
            let ghost s0 = seq![StepView::CreateParent(rel@)];
            assert(steps_view(out@) =~= start + s0);
            let ino = match overlay.lookup(1, rs.as_str(), &none) {
                Ok(i) => i,
                Err(e) => {
                    return Some(e);
                },
            };
            match overlay.readlink(ino, &none) {
                Err(e) => Some(e),
                Ok(target) => {
                    out.push(ApplyStep::PlaceSymlink(rs, target));
                    assert(steps_view(out@) =~= start + s0.push(StepView::PlaceSymlink(rel@, target@)));
                    None
                },
            }
        },
    }
}

/// The steps that write the overlay's changes into the base directory: for
/// each upper-layer path in table order its steps, then a removal for each
/// whiteout; a failure ends the steps and is returned beside them.
pub fn apply_plan(overlay: &mut OverlayFs) -> (r: ApplyPlan)
    requires
        old(overlay).wf(),
    ensures
        final(overlay).wf(),
        final(overlay)@ == apply_steps(old(overlay)@).0,
        steps_view(r.steps@) == apply_steps(old(overlay)@).1,
        r.error == apply_steps(old(overlay)@).2,
{
    let inodes = overlay.get_all_inodes();
    let ghost items = old(overlay)@.db.all_paths();
    let ghost v0 = old(overlay)@;
    let mut steps: Vec<ApplyStep> = Vec::new();
    let mut i: usize = 0;
    assert(items.take(0) =~= Seq::<(Seq<char>, ItemType)>::empty());
    assert(steps_view(steps@) =~= Seq::<StepView>::empty());
    while i < inodes.len()
        invariant
            overlay.wf(),
            i <= inodes.len(),
            crate::db::typed_paths_view(inodes@) == items,
            items == v0.db.all_paths(),
            v0 == old(overlay)@,
            overlay@ == items_steps(v0, items.take(i as int)).0,
            steps_view(steps@) == items_steps(v0, items.take(i as int)).1,
            items_steps(v0, items.take(i as int)).2 is None,
        decreases inodes.len() - i,
    {
        let p = chars_of(inodes[i].0.as_str());
        let t = inodes[i].1;
        assert(items[i as int] == (p@, t));
        assert(items.take(i + 1).drop_last() =~= items.take(i as int));
        let e = push_item_steps(overlay, &p, t, &mut steps);
        assert(items.take(i + 1).last() == (p@, t));
        assert(items_steps(v0, items.take(i + 1)) == (overlay@, steps_view(steps@), e));
        if e.is_some() {
            proof {
                lemma_failure_stays(v0, items, i + 1);
                assert(items_steps(v0, items) == (overlay@, steps_view(steps@), e));
                assert(apply_steps(v0) == items_steps(v0, items));
            }
            return ApplyPlan { steps, error: e };
        }
        i = i + 1;
    }
    assert(items.take(inodes.len() as int) =~= items);
    let whiteouts = overlay.get_all_whiteouts();
    let ghost ws = overlay@.db.whiteouts;
    assert(ws == v0.db.whiteouts) by {
        lemma_items_keep_db(v0, items);
    }
    let ghost base_steps = steps_view(steps@);
    let mut k: usize = 0;
    assert(removals(ws.take(0)) =~= Seq::<StepView>::empty());
    while k < whiteouts.len()
        invariant
            k <= whiteouts.len(),
            strings_view(whiteouts@) == ws,
            steps_view(steps@) == base_steps + removals(ws.take(k as int)),
        decreases whiteouts.len() - k,
    {
        let w = chars_of(whiteouts[k].as_str());
        assert(ws[k as int] == w@);
        let rel = rel_of(&w);
        let ghost before = steps_view(steps@);
        steps.push(ApplyStep::RemovePath(string_of(&rel)));
        assert(steps_view(steps@) =~= before.push(StepView::RemovePath(rel@)));
        assert(removals(ws.take(k + 1)) =~= removals(ws.take(k as int)).push(StepView::RemovePath(rel@)));
        k = k + 1;
    }
    assert(ws.take(whiteouts.len() as int) =~= ws);
    ApplyPlan { steps, error: None }
}

/// Once a path's steps failed, the later paths add nothing.
proof fn lemma_failure_stays(v: OverlayView, items: Seq<(Seq<char>, ItemType)>, i: int)
    requires
        0 <= i <= items.len(),
        items_steps(v, items.take(i)).2 is Some,
    ensures
        items_steps(v, items) == items_steps(v, items.take(i)),
    decreases items.len() - i,
{
    if i < items.len() {
        assert(items.take(i + 1).drop_last() =~= items.take(i));
        lemma_failure_stays(v, items, i + 1);
    } else {
        assert(items.take(i) =~= items);
    }
}

/// Planning only looks paths up: the upper layer stays as it was.
proof fn lemma_items_keep_db(v: OverlayView, items: Seq<(Seq<char>, ItemType)>)
    ensures
        items_steps(v, items).0.db == v.db,
    decreases items.len(),
{
    if items.len() > 0 {
        lemma_items_keep_db(v, items.drop_last());
        let v1 = items_steps(v, items.drop_last()).0;
        lemma_item_keeps_db(v1, items.last().0, items.last().1);
    }
}

/// A lookup changes only the inode numbers handed out.
proof fn lemma_lookup_keeps_db(v: OverlayView, parent: u64, name: Seq<char>, b: BaseView)
    ensures
        v.lookup(parent, name, b).0.db == v.db,
{
    if v.knows(parent) {
        let cp = crate::text::join_path(v.path_of(parent), name);
        let (w, o) = v.assign(cp);
        assert(w.db == v.db);
    }
}

/// Planning one path changes only the inode numbers handed out.
proof fn lemma_item_keeps_db(v: OverlayView, p: Seq<char>, t: ItemType)
    ensures
        item_steps(v, p, t).0.db == v.db,
{
    lemma_lookup_keeps_db(v, 1, rel_path(p), no_base());
}

} // verus!

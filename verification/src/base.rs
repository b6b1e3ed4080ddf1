//! What the overlay knows of the read-only base directory: the entries that
//! the caller has looked up there, each with its type and metadata, what
//! `stat` (which follows a symlink) gives at its path, the contents read
//! there (through a symlink too), and a symlink's target.
use vstd::prelude::*;
use crate::db::{cands_view, ItemType};
use crate::text::{chars_eq, chars_of, child_name, child_of, is_child};

verus! {

/// The metadata of a base entry, as `lstat` gives it.
#[derive(Debug, Clone, Copy)]
pub struct BaseMeta {
    pub mode: u32,
    pub uid: u32,
    pub gid: u32,
    pub size: u64,
    pub nlink: u32,
    pub atime: (i64, i64),
    pub mtime: (i64, i64),
    pub ctime: (i64, i64),
}

/// A base entry, as plain values. `kind` and `meta` are those of the entry
/// itself (`lstat`); `stat` is what following a symlink gives (the type of
/// its target, a file or a directory, and the target's metadata), `None` for
/// a symlink whose target is missing; `content` is what reading the path
/// gives, through a symlink too.
pub struct BaseEntryView {
    pub path: Seq<char>,
    pub kind: ItemType,
    pub meta: BaseMeta,
    pub stat: Option<(ItemType, BaseMeta)>,
    pub content: Seq<u8>,
    pub target: Option<Seq<char>>,
}

/// A base entry.
pub struct BaseEntry {
    path: Vec<char>,
    kind: ItemType,
    meta: BaseMeta,
    stat: Option<(ItemType, BaseMeta)>,
    content: Vec<u8>,
    target: Option<Vec<char>>,
}

impl View for BaseEntry {
    type V = BaseEntryView;

    closed spec fn view(&self) -> BaseEntryView {
        BaseEntryView {
            path: self.path@,
            kind: self.kind,
            meta: self.meta,
            stat: self.stat,
            content: self.content@,
            target: match self.target {
                Some(t) => Some(t@),
                None => None,
            },
        }
    }
}

impl BaseEntry {
    /// The entry's path.
    pub fn path(&self) -> (r: &Vec<char>)
        ensures
            r@ == self@.path,
    {
        &self.path
    }

    /// The entry's type.
    pub fn kind(&self) -> (r: ItemType)
        ensures
            r == self@.kind,
    {
        self.kind
    }

    /// The entry's metadata.
    pub fn meta(&self) -> (r: BaseMeta)
        ensures
            r == self@.meta,
    {
        self.meta
    }

    /// What `stat` gives at the entry's path, following a symlink.
    pub fn stat(&self) -> (r: Option<(ItemType, BaseMeta)>)
        ensures
            r == self@.stat,
    {
        self.stat
    }

    /// What reading the entry's path gives (through a symlink too).
    pub fn content(&self) -> (r: &Vec<u8>)
        ensures
            r@ == self@.content,
    {
        &self.content
    }

    /// The entry's target (symlinks only).
    pub fn target(&self) -> (r: &Option<Vec<char>>)
        ensures
            match *r {
                Some(t) => self@.target == Some(t@),
                None => self@.target is None,
            },
    {
        &self.target
    }
}

/// The known base entries, as plain values.
pub struct BaseView {
    pub entries: Seq<BaseEntryView>,
}

impl BaseView {
    /// No two entries share a path.
    pub open spec fn wf(self) -> bool {
        forall|i: int, j: int|
            #![trigger self.entries[i], self.entries[j]]
            0 <= i < self.entries.len() && 0 <= j < self.entries.len() && i != j
                ==> self.entries[i].path != self.entries[j].path
    }

    /// The base has an entry at `path`.
    pub open spec fn has(self, path: Seq<char>) -> bool {
        exists|i: int| 0 <= i < self.entries.len() && #[trigger] self.entries[i].path == path
    }

    /// The position of the entry at `path`.
    pub open spec fn index_of(self, path: Seq<char>) -> int {
        choose|i: int| 0 <= i < self.entries.len() && #[trigger] self.entries[i].path == path
    }

    /// The entry at `path`.
    pub open spec fn get(self, path: Seq<char>) -> BaseEntryView {
        self.entries[self.index_of(path)]
    }

    /// The base with `e` recorded at its path, replacing what was there.
    pub open spec fn put(self, e: BaseEntryView) -> BaseView {
        if self.has(e.path) {
            BaseView { entries: self.entries.update(self.index_of(e.path), e) }
        } else {
            BaseView { entries: self.entries.push(e) }
        }
    }
}

/// The names (relative to `dir`) and types of the entries of `es` directly
/// inside `dir`, in order.
pub open spec fn base_cands(es: Seq<BaseEntryView>, dir: Seq<char>) -> Seq<(Seq<char>, ItemType)>
    decreases es.len(),
{
    if es.len() == 0 {
        Seq::empty()
    } else {
        let rest = base_cands(es.drop_last(), dir);
        let e = es.last();
        if is_child(e.path, dir) {
            rest.push((child_name(e.path, dir), e.kind))
        } else {
            rest
        }
    }
}

/// What the overlay knows of the base directory.
pub struct BaseLayer {
    entries: Vec<BaseEntry>,
}

impl View for BaseLayer {
    type V = BaseView;

    closed spec fn view(&self) -> BaseView {
        BaseView { entries: self.entries@.map_values(|e: BaseEntry| e@) }
    }
}

impl BaseLayer {
    /// No two entries share a path.
    pub open spec fn wf(&self) -> bool {
        self@.wf()
    }

    /// Nothing known of the base.
    pub fn new() -> (b: BaseLayer)
        ensures
            b.wf(),
            b@.entries == Seq::<BaseEntryView>::empty(),
    {
        let b = BaseLayer { entries: Vec::new() };
        assert(b@.entries =~= Seq::<BaseEntryView>::empty());
        b
    }

    /// The position of the entry at `path`.
    pub fn find(&self, path: &Vec<char>) -> (r: Option<usize>)
        requires
            self.wf(),
        ensures
            match r {
                Some(i) => i < self@.entries.len() && self@.has(path@) && self@.index_of(path@) == i,
                None => !self@.has(path@),
            },
    {
        let mut i: usize = 0;
        while i < self.entries.len()
            invariant
                self.wf(),
                i <= self.entries.len(),
                forall|j: int| 0 <= j < i ==> #[trigger] self@.entries[j].path != path@,
            decreases self.entries.len() - i,
        {
            assert(self@.entries[i as int] == self.entries@[i as int]@);
            if chars_eq(&self.entries[i].path, path) {
                proof {
                    let j = self@.index_of(path@);
                    assert(self@.entries[i as int].path == path@);
                    if j != i {
                        assert(self@.entries[j].path != self@.entries[i as int].path);
                    }
                }
                return Some(i);
            }
            i = i + 1;
        }
        None
    }

    /// The entry at position `i`.
    pub fn entry(&self, i: usize) -> (r: &BaseEntry)
        requires
            i < self@.entries.len(),
        ensures
            r@ == self@.entries[i as int],
    {
        assert(self@.entries[i as int] == self.entries@[i as int]@);
        &self.entries[i]
    }

    /// The names (relative to `dir`) and types of the entries directly inside
    /// `dir`, in the order they were recorded.
    pub fn child_names(&self, dir: &Vec<char>) -> (r: Vec<(Vec<char>, ItemType)>)
        ensures
            cands_view(r@) == base_cands(self@.entries, dir@),
    {
        let mut out: Vec<(Vec<char>, ItemType)> = Vec::new();
        let mut i: usize = 0;
        while i < self.entries.len()
            invariant
                i <= self.entries.len(),
                cands_view(out@) == base_cands(self@.entries.take(i as int), dir@),
            decreases self.entries.len() - i,
        {
            let ghost pre = out@;
            assert(self@.entries[i as int] == self.entries@[i as int]@);
            assert(self@.entries.take(i + 1).drop_last() =~= self@.entries.take(i as int));
            match child_of(&self.entries[i].path, dir) {
                Some(n) => {
                    let e = (n, self.entries[i].kind);
                    out.push(e);
                    assert(cands_view(out@) =~= cands_view(pre).push((e.0@, e.1)));
                },
                None => {},
            }
            i = i + 1;
        }
        assert(self@.entries.take(self.entries.len() as int) =~= self@.entries);
        out
    }

    /// How many entries are known.
    pub fn len(&self) -> (r: usize)
        ensures
            r == self@.entries.len(),
    {
        self.entries.len()
    }

    /// Records `e`, replacing what was recorded at its path.
    fn put(&mut self, e: BaseEntry)
        requires
            old(self).wf(),
        ensures
            final(self).wf(),
            final(self)@ == old(self)@.put(e@),
    {
        let ghost ev = e@;
        match self.find(&e.path) {
            Some(i) => {
                self.entries[i] = e;
                proof {
                    assert(self@.entries =~= old(self)@.entries.update(i as int, ev));
                    assert forall|a: int, b: int|
                        0 <= a < self@.entries.len() && 0 <= b < self@.entries.len() && a != b
                        implies #[trigger] self@.entries[a].path != #[trigger] self@.entries[b].path by {
                        if a != i && b != i {
                            assert(self@.entries[a] == old(self)@.entries[a]);
                            assert(self@.entries[b] == old(self)@.entries[b]);
                            assert(old(self)@.entries[a].path != old(self)@.entries[b].path);
                        } else if a == i {
                            assert(self@.entries[b] == old(self)@.entries[b]);
                            assert(old(self)@.entries[i as int].path != old(self)@.entries[b].path);
                        } else {
                            assert(self@.entries[a] == old(self)@.entries[a]);
                            assert(old(self)@.entries[i as int].path != old(self)@.entries[a].path);
                        }
                    }
                }
            },
            None => {
                self.entries.push(e);
                proof {
                    assert(self@.entries =~= old(self)@.entries.push(ev));
                    assert forall|a: int| 0 <= a < old(self)@.entries.len() implies #[trigger] self@.entries[a].path
                        != ev.path by {
                        assert(self@.entries[a] == old(self)@.entries[a]);
                    }
                }
            },
        }
    }

    /// Records a regular file at `path` with metadata `meta` and contents
    /// `content`.
    pub fn add_file(&mut self, path: &str, meta: BaseMeta, content: Vec<u8>)
        requires
            old(self).wf(),
        ensures
            final(self).wf(),
            final(self)@ == old(self)@.put(
                BaseEntryView {
                    path: path@,
                    kind: ItemType::File,
                    meta,
                    stat: Some((ItemType::File, meta)),
                    content: content@,
                    target: None,
                },
            ),
    {
        let e = BaseEntry {
            path: chars_of(path),
            kind: ItemType::File,
            meta,
            stat: Some((ItemType::File, meta)),
            content,
            target: None,
        };
        self.put(e);
    }

    /// Records a directory at `path` with metadata `meta`.
    pub fn add_dir(&mut self, path: &str, meta: BaseMeta)
        requires
            old(self).wf(),
        ensures
            final(self).wf(),
            final(self)@ == old(self)@.put(
                BaseEntryView {
                    path: path@,
                    kind: ItemType::Directory,
                    meta,
                    stat: Some((ItemType::Directory, meta)),
                    content: Seq::empty(),
                    target: None,
                },
            ),
    {
        let e = BaseEntry {
            path: chars_of(path),
            kind: ItemType::Directory,
            meta,
            stat: Some((ItemType::Directory, meta)),
            content: Vec::new(),
            target: None,
        };
        proof {
            assert(e@.content =~= Seq::<u8>::empty());
        }
        self.put(e);
    }

    /// Records a symlink at `path` with its own metadata `meta`, pointing to
    /// `target`; `stat` is what following it gives (`None` when its target is
    /// missing) and `content` what reading through it gives.
    pub fn add_symlink(
        &mut self,
        path: &str,
        meta: BaseMeta,
        target: &str,
        stat: Option<(ItemType, BaseMeta)>,
        content: Vec<u8>,
    )
        requires
            old(self).wf(),
        ensures
            final(self).wf(),
            final(self)@ == old(self)@.put(
                BaseEntryView {
                    path: path@,
                    kind: ItemType::Symlink,
                    meta,
                    stat,
                    content: content@,
                    target: Some(target@),
                },
            ),
    {
        let e = BaseEntry {
            path: chars_of(path),
            kind: ItemType::Symlink,
            meta,
            stat,
            content,
            target: Some(chars_of(target)),
        };
        self.put(e);
    }
}

} // verus!

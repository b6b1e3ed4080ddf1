//! The overlay filesystem: entries are looked up first among the whiteouts
//! (which hide them), then in the upper layer, then in the base; writes copy a
//! base file into the upper layer before changing it, so the base is never
//! written. Inode numbers are handed out per path, the root being inode 1.
use vstd::prelude::*;
use crate::base::{base_cands, BaseEntryView, BaseLayer, BaseMeta, BaseView};
use crate::clock::now_timespec;
use crate::db::{
    attrs_of, cands_view, entries_view, entry_view, is_below, moved_path, read_bytes_into, read_into, strings_view, typed_paths_view,
    upper_cands, valid_time, Attrs, Database, DbError, DbView, DirEntry, ItemType,
};
use crate::text::{
    chars_eq, chars_of, child_name, child_of, concat, copy_chars, is_child, is_prefix, join,
    join_path, root_chars, root_path, starts_with, string_of, suffix_from,
};

verus! {

/// Why an overlay operation failed.
#[derive(Debug, Clone, Copy, PartialEq, Eq, Structural)]
pub enum OverlayError {
    /// No path is known for the inode.
    InodeNotFound(u64),
    /// No path is known for the parent directory's inode.
    ParentNotFound(u64),
    /// The path is hidden by a whiteout.
    WhitedOut,
    /// Neither layer has the path.
    NotFound,
    /// Neither layer has attributes for the path.
    StatFailed,
    /// The base has no readable file (or symlink) at the path.
    BaseReadFailed,
    /// A directory that only the base has cannot be moved.
    BaseDirectoryRename,
    /// No inode number is left to hand out.
    InodesExhausted,
    /// The upper layer refused the change.
    Db(DbError),
}

/// The overlay's state, as plain values.
pub struct OverlayView {
    pub db: DbView,
    pub base_path: Seq<char>,
    pub inodes: Seq<(u64, Seq<char>)>,
    pub next_inode: u64,
}

/// The first inode number handed out for a path other than the root.
pub open spec fn first_inode() -> u64 {
    1_000_000
}

/// What reading the base entry `e` gives is a regular file's contents: `stat`
/// finds a regular file there, itself or at the end of a symlink.
pub open spec fn reads_as_file(e: BaseEntryView) -> bool {
    e.stat matches Some(s) && s.0 == ItemType::File
}

/// The attributes of a base entry reached through inode `ino`: those that
/// `stat` gives at its path, so a symlink reports its target's type and
/// metadata (meaningful when `e.stat` is some).
pub open spec fn base_attrs(ino: u64, e: BaseEntryView) -> Attrs {
    let (t, m) = e.stat.unwrap();
    Attrs {
        file_id: ino,
        parent_id: 0,
        item_type: t,
        mode: m.mode,
        uid: m.uid,
        gid: m.gid,
        size: m.size,
        link_count: m.nlink,
        atime_sec: m.atime.0,
        atime_nsec: m.atime.1,
        mtime_sec: m.mtime.0,
        mtime_nsec: m.mtime.1,
        ctime_sec: m.ctime.0,
        ctime_nsec: m.ctime.1,
    }
}

/// `name` is already in the listing `out`.
pub open spec fn listed(out: Seq<(u64, Seq<char>, ItemType)>, name: Seq<char>) -> bool {
    exists|k: int| 0 <= k < out.len() && (#[trigger] out[k]).1 == name
}

/// Adding a file at `p` with permissions `mode` and contents `content`.
pub open spec fn copy_file(db: DbView, p: Seq<char>, mode: u32, content: Seq<u8>, now: (i64, i64)) -> (
    DbView,
    Result<(), DbError>,
) {
    let (d1, r) = db.create(p, ItemType::File, mode, None, now);
    match r {
        Err(e) => (d1, Err(e)),
        Ok(_) => {
            let (d2, r2) = d1.write(p, 0, content, now);
            match r2 {
                Err(e) => (d2, Err(e)),
                Ok(_) => (d2, Ok(())),
            }
        },
    }
}

/// Copying the path `p` up into the upper layer: a file with permissions 0o644,
/// holding what reading the base path gives when that is a regular file's
/// contents (through a symlink too).
pub open spec fn copy_up(db: DbView, p: Seq<char>, b: BaseView, now: (i64, i64)) -> (
    DbView,
    Result<(), DbError>,
) {
    if b.has(p) && reads_as_file(b.get(p)) {
        copy_file(db, p, 420, b.get(p).content, now)
    } else {
        let (d1, r) = db.create(p, ItemType::File, 420, None, now);
        match r {
            Err(e) => (d1, Err(e)),
            Ok(_) => (d1, Ok(())),
        }
    }
}

/// A registered path after `old` moved to `new`: `old` and the paths below it
/// move along, a path at or below `new` that did not move is dropped, others
/// stay.
pub open spec fn remap_path(p: Seq<char>, old: Seq<char>, new: Seq<char>) -> Option<Seq<char>> {
    if p == old {
        Some(new)
    } else if is_below(p, old) {
        Some(moved_path(p, old, new))
    } else if p == new || is_below(p, new) {
        None
    } else {
        Some(p)
    }
}

/// A registered inode number and path after `old` moved to `new`.
pub open spec fn remap_entry(e: (u64, Seq<char>), old: Seq<char>, new: Seq<char>) -> Option<
    (u64, Seq<char>),
> {
    match remap_path(e.1, old, new) {
        Some(q) => Some((e.0, q)),
        None => None,
    }
}

/// The registered inode numbers after `old` moved to `new`, in order.
pub open spec fn remap_in(s: Seq<(u64, Seq<char>)>, old: Seq<char>, new: Seq<char>) -> Seq<
    (u64, Seq<char>),
>
    decreases s.len(),
{
    if s.len() == 0 {
        Seq::empty()
    } else {
        let rest = remap_in(s.drop_last(), old, new);
        match remap_entry(s.last(), old, new) {
            Some(e) => rest.push(e),
            None => rest,
        }
    }
}

proof fn lemma_moved_below(p: Seq<char>, old: Seq<char>, new: Seq<char>)
    requires
        is_below(p, old),
    ensures
        is_below(moved_path(p, old, new), new),
        moved_path(p, old, new).len() > new.len(),
{
    let m = moved_path(p, old, new);
    assert(m.subrange(0, new.len() + 1int) =~= new.push('/'));
}

/// Some entry of `s` before position `k` becomes `e` after `old` moved to `new`.
pub open spec fn remapped_before(
    s: Seq<(u64, Seq<char>)>,
    k: int,
    e: (u64, Seq<char>),
    old: Seq<char>,
    new: Seq<char>,
) -> bool {
    exists|j: int| 0 <= j < k && #[trigger] remap_entry(s[j], old, new) == Some(e)
}

proof fn lemma_fold_stuck(v: OverlayView, d: Seq<char>, cands: Seq<(Seq<char>, ItemType)>, k: int)
    requires
        0 <= k <= cands.len(),
        !v.readdir_fold(d, cands.take(k)).2,
    ensures
        v.readdir_fold(d, cands) == v.readdir_fold(d, cands.take(k)),
    decreases cands.len() - k,
{
    if k < cands.len() {
        assert(cands.take(k + 1).drop_last() =~= cands.take(k));
        lemma_fold_stuck(v, d, cands, k + 1);
    } else {
        assert(cands.take(k) =~= cands);
    }
}

pub proof fn lemma_remap_distinct(p: Seq<char>, q: Seq<char>, old: Seq<char>, new: Seq<char>)
    requires
        p != q,
        remap_path(p, old, new) is Some,
        remap_path(q, old, new) is Some,
    ensures
        remap_path(p, old, new) != remap_path(q, old, new),
{
    if is_below(p, old) && p != old {
        lemma_moved_below(p, old, new);
    }
    if is_below(q, old) && q != old {
        lemma_moved_below(q, old, new);
    }
    if p != old && q != old && is_below(p, old) && is_below(q, old) {
        if moved_path(p, old, new) == moved_path(q, old, new) {
            lemma_moved_injective(p, q, old, new);
        }
    }
}

proof fn lemma_moved_injective(p1: Seq<char>, p2: Seq<char>, old: Seq<char>, new: Seq<char>)
    requires
        is_below(p1, old),
        is_below(p2, old),
        moved_path(p1, old, new) == moved_path(p2, old, new),
    ensures
        p1 == p2,
{
    let k: int = old.len() + 1int;
    let m = moved_path(p1, old, new);
    let n: int = new.len() + 1int;
    assert(p1.skip(k) =~= m.subrange(n, m.len() as int));
    assert(p2.skip(k) =~= m.subrange(n, m.len() as int));
    assert(p1 =~= p1.subrange(0, k) + p1.skip(k));
    assert(p2 =~= p2.subrange(0, k) + p2.skip(k));
}

impl OverlayView {
    /// Inode numbers and paths are each registered once, the table's
    /// constraints hold, and every registered number is below the next one.
    pub open spec fn wf(self) -> bool {
        &&& self.db.wf()
        &&& forall|i: int, j: int|
            #![trigger self.inodes[i], self.inodes[j]]
            0 <= i < self.inodes.len() && 0 <= j < self.inodes.len() && i != j ==> self.inodes[i].0
                != self.inodes[j].0 && self.inodes[i].1 != self.inodes[j].1
        &&& forall|i: int| 0 <= i < self.inodes.len() ==> #[trigger] self.inodes[i].0 < self.next_inode
    }

    /// A path is registered for `ino`.
    pub open spec fn knows(self, ino: u64) -> bool {
        exists|i: int| 0 <= i < self.inodes.len() && #[trigger] self.inodes[i].0 == ino
    }

    /// The path registered for `ino`.
    pub open spec fn path_of(self, ino: u64) -> Seq<char> {
        self.inodes[choose|i: int| 0 <= i < self.inodes.len() && #[trigger] self.inodes[i].0 == ino].1
    }

    /// An inode number is registered for `path`.
    pub open spec fn registered(self, path: Seq<char>) -> bool {
        exists|i: int| 0 <= i < self.inodes.len() && #[trigger] self.inodes[i].1 == path
    }

    /// The inode number registered for `path`.
    pub open spec fn ino_of(self, path: Seq<char>) -> u64 {
        self.inodes[choose|i: int| 0 <= i < self.inodes.len() && #[trigger] self.inodes[i].1 == path].0
    }

    /// The state with upper layer `db`.
    pub open spec fn with_db(self, db: DbView) -> OverlayView {
        OverlayView { db, ..self }
    }

    /// The inode number for `path`: the registered one, or the next free one,
    /// which is then registered.
    pub open spec fn assign(self, path: Seq<char>) -> (OverlayView, Option<u64>) {
        if self.registered(path) {
            (self, Some(self.ino_of(path)))
        } else if self.next_inode == u64::MAX {
            (self, None)
        } else {
            (
                OverlayView {
                    inodes: self.inodes.push((self.next_inode, path)),
                    next_inode: (self.next_inode + 1) as u64,
                    ..self
                },
                Some(self.next_inode),
            )
        }
    }

    /// Assigning an inode number to `path` as the result of an operation.
    pub open spec fn assign_result(self, path: Seq<char>) -> (OverlayView, Result<u64, OverlayError>) {
        let (v, o) = self.assign(path);
        match o {
            Some(i) => (v, Ok(i)),
            None => (v, Err(OverlayError::InodesExhausted)),
        }
    }

    /// The overlay opened on upper layer `db` over the base at `base_path`.
    pub open spec fn opened(db: DbView, base_path: Seq<char>) -> OverlayView {
        OverlayView {
            db: DbView { base_path: Some(base_path), ..db },
            base_path,
            inodes: seq![(1u64, root_path())],
            next_inode: first_inode(),
        }
    }

    /// The attributes reached through `ino`: those of the upper layer's row
    /// (with `file_id` the inode number), else those that `stat` gives at the
    /// base path, which follows a symlink to its target (a symlink whose
    /// target is missing has none).
    pub open spec fn getattr(self, ino: u64, b: BaseView) -> Result<Attrs, OverlayError> {
        if !self.knows(ino) {
            Err(OverlayError::InodeNotFound(ino))
        } else {
            let p = self.path_of(ino);
            if self.db.is_whiteout(p) {
                Err(OverlayError::WhitedOut)
            } else if self.db.has_path(p) {
                Ok(Attrs { file_id: ino, ..attrs_of(self.db.row_at(p)) })
            } else if b.has(p) && b.get(p).stat is Some {
                Ok(base_attrs(ino, b.get(p)))
            } else {
                Err(OverlayError::StatFailed)
            }
        }
    }

    /// Looking up `name` in directory `parent`: hidden by a whiteout, else found
    /// in either layer (and given an inode number), else not found.
    pub open spec fn lookup(self, parent: u64, name: Seq<char>, b: BaseView) -> (
        OverlayView,
        Result<u64, OverlayError>,
    ) {
        if !self.knows(parent) {
            (self, Err(OverlayError::ParentNotFound(parent)))
        } else {
            let cp = join_path(self.path_of(parent), name);
            if self.db.is_whiteout(cp) {
                (self, Err(OverlayError::WhitedOut))
            } else if self.db.has_path(cp) || b.has(cp) {
                self.assign_result(cp)
            } else {
                (self, Err(OverlayError::NotFound))
            }
        }
    }

    /// Creating `name` in directory `parent` in the upper layer (a symlink when
    /// `target` is given): the whiteout at that path is lifted first.
    pub open spec fn create(
        self,
        parent: u64,
        name: Seq<char>,
        item_type: ItemType,
        mode: u32,
        target: Option<Seq<char>>,
        now: (i64, i64),
    ) -> (OverlayView, Result<u64, OverlayError>) {
        if !self.knows(parent) {
            (self, Err(OverlayError::ParentNotFound(parent)))
        } else {
            let cp = join_path(self.path_of(parent), name);
            let db1 = self.db.remove_whiteout(cp);
            let (db2, r) = db1.create(cp, item_type, mode, target, now);
            match r {
                Err(e) => (self.with_db(db2), Err(OverlayError::Db(e))),
                Ok(_) => self.with_db(db2).assign_result(cp),
            }
        }
    }

    /// Reading through `ino` from `offset` into `buf`: from the upper layer's
    /// contents when it has them, else from the base file, read through a
    /// symlink to its target.
    pub open spec fn read(self, ino: u64, offset: u64, buf: Seq<u8>, b: BaseView) -> (
        Seq<u8>,
        Result<usize, OverlayError>,
    ) {
        if !self.knows(ino) {
            (buf, Err(OverlayError::InodeNotFound(ino)))
        } else {
            let p = self.path_of(ino);
            if self.db.is_whiteout(p) {
                (buf, Err(OverlayError::WhitedOut))
            } else {
                let (nb, r) = self.db.read(p, offset, buf);
                match r {
                    Ok(n) => (nb, Ok(n)),
                    Err(_) => if b.has(p) && reads_as_file(b.get(p)) {
                        let (nb2, n) = read_into(b.get(p).content, offset, buf);
                        (nb2, Ok(n))
                    } else {
                        (buf, Err(OverlayError::BaseReadFailed))
                    },
                }
            }
        }
    }

    /// Writing `data` at `offset` through `ino`: a path that the upper layer
    /// lacks is first copied up from the base.
    pub open spec fn write(self, ino: u64, offset: u64, data: Seq<u8>, b: BaseView, now: (i64, i64)) -> (
        OverlayView,
        Result<usize, OverlayError>,
    ) {
        if !self.knows(ino) {
            (self, Err(OverlayError::InodeNotFound(ino)))
        } else {
            let p = self.path_of(ino);
            let (db1, r1) = if self.db.has_path(p) {
                (self.db, Ok(()))
            } else {
                copy_up(self.db, p, b, now)
            };
            match r1 {
                Err(e) => (self.with_db(db1), Err(OverlayError::Db(e))),
                Ok(_) => {
                    let (db2, r2) = db1.write(p, offset, data, now);
                    (
                        self.with_db(db2),
                        match r2 {
                            Ok(n) => Ok(n),
                            Err(e) => Err(OverlayError::Db(e)),
                        },
                    )
                },
            }
        }
    }

    /// Removing the entry reached through `ino`: its upper row goes, and a
    /// whiteout hides the base entry at its path, if there is one.
    pub open spec fn remove(self, ino: u64, b: BaseView) -> (OverlayView, Result<(), OverlayError>) {
        if !self.knows(ino) {
            (self, Err(OverlayError::InodeNotFound(ino)))
        } else {
            let p = self.path_of(ino);
            let db1 = self.db.remove(p);
            let db2 = if b.has(p) {
                db1.add_whiteout(p)
            } else {
                db1
            };
            (self.with_db(db2), Ok(()))
        }
    }

    /// The symlink target reached through `ino`: the upper row's, else the base
    /// symlink's.
    pub open spec fn readlink(self, ino: u64, b: BaseView) -> Result<Seq<char>, OverlayError> {
        if !self.knows(ino) {
            Err(OverlayError::InodeNotFound(ino))
        } else {
            let p = self.path_of(ino);
            if self.db.has_path(p) && self.db.row_at(p).symlink_target is Some {
                Ok(self.db.row_at(p).symlink_target.unwrap())
            } else if b.has(p) && b.get(p).target is Some {
                Ok(b.get(p).target.unwrap())
            } else {
                Err(OverlayError::BaseReadFailed)
            }
        }
    }

    /// Changing the attributes reached through `ino`: a mode or size change
    /// copies a base-only path up first; times change only in the upper layer,
    /// and a missing time keeps its value.
    pub open spec fn setattr(
        self,
        ino: u64,
        mode: Option<u32>,
        size: Option<u64>,
        atime: Option<(i64, i64)>,
        mtime: Option<(i64, i64)>,
        b: BaseView,
        now: (i64, i64),
    ) -> (OverlayView, Result<(), OverlayError>) {
        if !self.knows(ino) {
            (self, Err(OverlayError::InodeNotFound(ino)))
        } else {
            let p = self.path_of(ino);
            let (db1, r1) = if (mode is Some || size is Some) && !self.db.has_path(p) {
                copy_up(self.db, p, b, now)
            } else {
                (self.db, Ok(()))
            };
            match r1 {
                Err(e) => (self.with_db(db1), Err(OverlayError::Db(e))),
                Ok(_) => {
                    let db2 = match mode {
                        Some(m) => db1.update_mode(p, m, now),
                        None => db1,
                    };
                    let (db3, r3) = match size {
                        Some(s) => db2.truncate(p, s, now),
                        None => (db2, Ok(())),
                    };
                    match r3 {
                        Err(e) => (self.with_db(db3), Err(OverlayError::Db(e))),
                        Ok(_) => {
                            let db4 = if (atime is Some || mtime is Some) && db3.has_path(p) {
                                let r = db3.row_at(p);
                                let a = match atime {
                                    Some(t) => t,
                                    None => r.atime,
                                };
                                let m = match mtime {
                                    Some(t) => t,
                                    None => r.mtime,
                                };
                                db3.update_times(p, Some(a.0), Some(a.1), Some(m.0), Some(m.1), now)
                            } else {
                                db3
                            };
                            (self.with_db(db4), Ok(()))
                        },
                    }
                },
            }
        }
    }

    /// The names and types a listing of `dir` considers: the upper layer's
    /// entries directly inside it, then the base's.
    pub open spec fn listing(self, dir: Seq<char>, b: BaseView) -> Seq<(Seq<char>, ItemType)> {
        upper_cands(self.db.rows, dir) + base_cands(b.entries, dir)
    }

    /// Listing the candidates `cands` of directory `dir` in order: a name whose
    /// path is whited out, or that was already listed, is skipped; every other
    /// one is listed with its inode number. The flag is false when inode numbers
    /// ran out.
    pub open spec fn readdir_fold(self, dir: Seq<char>, cands: Seq<(Seq<char>, ItemType)>) -> (
        OverlayView,
        Seq<(u64, Seq<char>, ItemType)>,
        bool,
    )
        decreases cands.len(),
    {
        if cands.len() == 0 {
            (self, Seq::empty(), true)
        } else {
            let (v1, out, ok) = self.readdir_fold(dir, cands.drop_last());
            if !ok {
                (v1, out, false)
            } else {
                let name = cands.last().0;
                let cp = join_path(dir, name);
                if v1.db.is_whiteout(cp) || listed(out, name) {
                    (v1, out, true)
                } else {
                    let (v2, o) = v1.assign(cp);
                    match o {
                        Some(i) => (v2, out.push((i, name, cands.last().1)), true),
                        None => (v2, out, false),
                    }
                }
            }
        }
    }

    /// Listing the directory reached through `dir`.
    pub open spec fn readdir(self, dir: u64, b: BaseView) -> (
        OverlayView,
        Result<Seq<(u64, Seq<char>, ItemType)>, OverlayError>,
    ) {
        if !self.knows(dir) {
            (self, Err(OverlayError::InodeNotFound(dir)))
        } else {
            let d = self.path_of(dir);
            let (v, out, ok) = self.readdir_fold(d, self.listing(d, b));
            if ok {
                (v, Ok(out))
            } else {
                (v, Err(OverlayError::InodesExhausted))
            }
        }
    }

    /// Moving `fname` in directory `fd` to `tname` in directory `td`. An upper
    /// entry replaces whatever upper entry had the new path and moves (with what
    /// is below it); a whiteout at the new path is lifted, and a base entry at
    /// the old path is hidden. A base-only file or symlink is copied up to the
    /// new path (a file keeping its permission bits) and its old path is hidden;
    /// a base-only directory is refused. Registered inode numbers follow the
    /// move.
    pub open spec fn rename(
        self,
        fd: u64,
        fname: Seq<char>,
        td: u64,
        tname: Seq<char>,
        b: BaseView,
        now: (i64, i64),
    ) -> (OverlayView, Result<(), OverlayError>) {
        if !self.knows(fd) {
            (self, Err(OverlayError::ParentNotFound(fd)))
        } else if !self.knows(td) {
            (self, Err(OverlayError::ParentNotFound(td)))
        } else {
            let old = join_path(self.path_of(fd), fname);
            let new = join_path(self.path_of(td), tname);
            if self.db.is_whiteout(old) {
                (self, Err(OverlayError::WhitedOut))
            } else if self.db.has_path(old) {
                let db1 = if new != old {
                    self.db.remove(new)
                } else {
                    self.db
                };
                let (db2, r) = db1.rename(old, new, now);
                match r {
                    Err(e) => (self.with_db(db2), Err(OverlayError::Db(e))),
                    Ok(_) => {
                        let db3 = db2.remove_whiteout(new);
                        let db4 = if b.has(old) && new != old {
                            db3.add_whiteout(old)
                        } else {
                            db3
                        };
                        (
                            OverlayView { db: db4, inodes: remap_in(self.inodes, old, new), ..self },
                            Ok(()),
                        )
                    },
                }
            } else if b.has(old) {
                let e = b.get(old);
                if e.kind == ItemType::Directory {
                    (self, Err(OverlayError::BaseDirectoryRename))
                } else if new == old {
                    (self, Ok(()))
                } else {
                    let db2 = self.db.remove(new).remove_whiteout(new);
                    let (db3, r) = if e.kind == ItemType::Symlink {
                        let (d, r0) = db2.create(new, ItemType::Symlink, 511, e.target, now);
                        (
                            d,
                            match r0 {
                                Ok(_) => Ok(()),
                                Err(x) => Err(x),
                            },
                        )
                    } else {
                        copy_file(db2, new, e.meta.mode & 0o7777, e.content, now)
                    };
                    match r {
                        Err(x) => (self.with_db(db3), Err(OverlayError::Db(x))),
                        Ok(_) => (
                            OverlayView {
                                db: db3.add_whiteout(old),
                                inodes: remap_in(self.inodes, old, new),
                                ..self
                            },
                            Ok(()),
                        ),
                    }
                }
            } else {
                (self, Err(OverlayError::NotFound))
            }
        }
    }
}

/// The overlay filesystem.
pub struct OverlayFs {
    db: Database,
    base_path: Vec<char>,
    inodes: Vec<(u64, Vec<char>)>,
    next_inode: u64,
}

/// The plain values of registered inode numbers and paths.
pub open spec fn inodes_view(v: Seq<(u64, Vec<char>)>) -> Seq<(u64, Seq<char>)> {
    v.map_values(|e: (u64, Vec<char>)| (e.0, e.1@))
}

impl View for OverlayFs {
    type V = OverlayView;

    closed spec fn view(&self) -> OverlayView {
        OverlayView {
            db: self.db@,
            base_path: self.base_path@,
            inodes: inodes_view(self.inodes@),
            next_inode: self.next_inode,
        }
    }
}

proof fn lemma_ino_index(v: OverlayView, ino: u64, i: int)
    requires
        v.wf(),
        0 <= i < v.inodes.len(),
        v.inodes[i].0 == ino,
    ensures
        v.knows(ino),
        v.path_of(ino) == v.inodes[i].1,
{
    let j = choose|j: int| 0 <= j < v.inodes.len() && #[trigger] v.inodes[j].0 == ino;
    assert(v.inodes[j].0 == ino);
    if j != i {
        assert(v.inodes[i].0 != v.inodes[j].0);
    }
}

proof fn lemma_path_index(v: OverlayView, p: Seq<char>, i: int)
    requires
        v.wf(),
        0 <= i < v.inodes.len(),
        v.inodes[i].1 == p,
    ensures
        v.registered(p),
        v.ino_of(p) == v.inodes[i].0,
{
    let j = choose|j: int| 0 <= j < v.inodes.len() && #[trigger] v.inodes[j].1 == p;
    assert(v.inodes[j].1 == p);
    if j != i {
        assert(v.inodes[i].1 != v.inodes[j].1);
    }
}

/// Adds a file at `p` with permissions `mode` and contents `content`.
fn copy_file_exec(db: &mut Database, p: &Vec<char>, mode: u32, content: &Vec<u8>, now: (i64, i64)) -> (r:
    Result<(), DbError>)
    requires
        old(db).wf(),
    ensures
        final(db).wf(),
        (final(db)@, r) == copy_file(old(db)@, p@, mode, content@, now),
{
    let len = content.len();
    assert(content@.len() == len);
    match db.create_row(copy_chars(p), ItemType::File, mode, None, now) {
        Err(e) => Err(e),
        Ok(_) => match db.write_at(p, 0, content.as_slice(), now) {
            Err(e) => Err(e),
            Ok(_) => Ok(()),
        },
    }
}

/// Whether `stat` found a regular file.
fn is_file_stat(s: Option<(ItemType, BaseMeta)>) -> (r: bool)
    ensures
        r == (s matches Some(x) && x.0 == ItemType::File),
{
    match s {
        Some((t, _)) => t == ItemType::File,
        None => false,
    }
}

/// Copies the path `p` up into the upper layer.
fn copy_up_exec(db: &mut Database, p: &Vec<char>, base: &BaseLayer, now: (i64, i64)) -> (r: Result<
    (),
    DbError,
>)
    requires
        old(db).wf(),
        base.wf(),
    ensures
        final(db).wf(),
        (final(db)@, r) == copy_up(old(db)@, p@, base@, now),
{
    match base.find(p) {
        Some(i) => {
            if is_file_stat(base.entry(i).stat()) {
                return copy_file_exec(db, p, 420, base.entry(i).content(), now);
            }
        },
        None => {},
    }
    match db.create_row(copy_chars(p), ItemType::File, 420, None, now) {
        Err(e) => Err(e),
        Ok(_) => Ok(()),
    }
}

impl OverlayFs {
    /// The root directory's inode number.
    pub const ROOT_ID: u64 = 1;

    /// Inode numbers and paths are each registered once and the table's
    /// constraints hold.
    pub open spec fn wf(&self) -> bool {
        self@.wf()
    }

    /// Opens the overlay on upper layer `db` over the base directory at
    /// `base_path`, recording that path in `db`; only the root (inode 1, path
    /// `"/"`) has an inode number yet.
    pub fn new(db: Database, base_path: &str) -> (ov: OverlayFs)
        requires
            db.wf(),
        ensures
            ov.wf(),
            ov@ == OverlayView::opened(db@, base_path@),
    {
        let mut db = db;
        let _ = db.set_base_path(base_path);
        let mut inodes: Vec<(u64, Vec<char>)> = Vec::new();
        inodes.push((1, root_chars()));
        let ov = OverlayFs { db, base_path: chars_of(base_path), inodes, next_inode: 1_000_000 };
        assert(ov@.inodes =~= seq![(1u64, root_path())]);
        ov
    }

    /// The root directory's inode number.
    pub fn root_id(&self) -> (r: u64)
        ensures
            r == 1,
    {
        1
    }

    /// The base directory's path.
    pub fn base_path(&self) -> (r: String)
        ensures
            r@ == self@.base_path,
    {
        string_of(&self.base_path)
    }

    /// The position of `ino` among the registered inode numbers.
    fn find_ino(&self, ino: u64) -> (r: Option<usize>)
        requires
            self.wf(),
        ensures
            match r {
                Some(i) => i < self@.inodes.len() && self@.knows(ino) && self@.inodes[i as int].0 == ino
                    && self@.path_of(ino) == self@.inodes[i as int].1,
                None => !self@.knows(ino),
            },
    {
        let mut i: usize = 0;
        while i < self.inodes.len()
            invariant
                self.wf(),
                i <= self.inodes.len(),
                forall|j: int| 0 <= j < i ==> #[trigger] self@.inodes[j].0 != ino,
            decreases self.inodes.len() - i,
        {
            assert(self@.inodes[i as int] == (self.inodes@[i as int].0, self.inodes@[i as int].1@));
            if self.inodes[i].0 == ino {
                proof {
                    lemma_ino_index(self@, ino, i as int);
                }
                return Some(i);
            }
            i = i + 1;
        }
        None
    }

    /// The path registered for `ino`.
    fn path_for(&self, ino: u64) -> (r: Option<Vec<char>>)
        requires
            self.wf(),
        ensures
            match r {
                Some(p) => self@.knows(ino) && p@ == self@.path_of(ino),
                None => !self@.knows(ino),
            },
    {
        match self.find_ino(ino) {
            Some(i) => {
                assert(self@.inodes[i as int] == (self.inodes@[i as int].0, self.inodes@[i as int].1@));
                Some(copy_chars(&self.inodes[i].1))
            },
            None => None,
        }
    }

    /// The path registered for inode `ino`, if any.
    pub fn path_of(&self, ino: u64) -> (r: Option<String>)
        requires
            self.wf(),
        ensures
            match r {
                Some(p) => self@.knows(ino) && p@ == self@.path_of(ino),
                None => !self@.knows(ino),
            },
    {
        match self.path_for(ino) {
            Some(p) => Some(string_of(&p)),
            None => None,
        }
    }

    /// The path of `name` inside directory `dir`, if `dir` has a path.
    pub fn child_path(&self, dir: u64, name: &str) -> (r: Option<String>)
        requires
            self.wf(),
        ensures
            match r {
                Some(p) => self@.knows(dir) && p@ == join_path(self@.path_of(dir), name@),
                None => !self@.knows(dir),
            },
    {
        match self.path_for(dir) {
            Some(d) => {
                let n = chars_of(name);
                Some(string_of(&join(&d, &n)))
            },
            None => None,
        }
    }

    /// The inode number for `p`: the registered one, or the next free one.
    fn assign_inode(&mut self, p: &Vec<char>) -> (r: Option<u64>)
        requires
            old(self).wf(),
        ensures
            final(self).wf(),
            (final(self)@, r) == old(self)@.assign(p@),
    {
        let mut i: usize = 0;
        while i < self.inodes.len()
            invariant
                self.wf(),
                i <= self.inodes.len(),
                forall|j: int| 0 <= j < i ==> #[trigger] self@.inodes[j].1 != p@,
            decreases self.inodes.len() - i,
        {
            assert(self@.inodes[i as int] == (self.inodes@[i as int].0, self.inodes@[i as int].1@));
            if chars_eq(&self.inodes[i].1, p) {
                proof {
                    lemma_path_index(self@, p@, i as int);
                }
                return Some(self.inodes[i].0);
            }
            i = i + 1;
        }
        if self.next_inode == u64::MAX {
            return None;
        }
        let ino = self.next_inode;
        self.inodes.push((ino, copy_chars(p)));
        self.next_inode = ino + 1;
        proof {
            let o = old(self)@;
            assert(self@.inodes =~= o.inodes.push((ino, p@)));
            assert forall|a: int| 0 <= a < o.inodes.len() implies #[trigger] self@.inodes[a] == o.inodes[a] by {}
        }
        Some(ino)
    }

    /// `assign_inode` as the result of an operation.
    fn assign_result(&mut self, p: &Vec<char>) -> (r: Result<u64, OverlayError>)
        requires
            old(self).wf(),
        ensures
            final(self).wf(),
            (final(self)@, r) == old(self)@.assign_result(p@),
    {
        match self.assign_inode(p) {
            Some(i) => Ok(i),
            None => Err(OverlayError::InodesExhausted),
        }
    }

    /// The attributes of the entry reached through `ino`.
    pub fn getattr(&self, ino: u64, base: &BaseLayer) -> (r: Result<Attrs, OverlayError>)
        requires
            self.wf(),
            base.wf(),
        ensures
            r == self@.getattr(ino, base@),
    {
        let p = match self.path_for(ino) {
            Some(p) => p,
            None => {
                return Err(OverlayError::InodeNotFound(ino));
            },
        };
        if self.db.is_whiteout_at(&p) {
            return Err(OverlayError::WhitedOut);
        }
        match self.db.attrs_at(&p) {
            Ok(a) => {
                return Ok(Attrs { file_id: ino, ..a });
            },
            Err(_) => {},
        }
        match base.find(&p) {
            Some(i) => match base.entry(i).stat() {
                Some((t, m)) => Ok(
                    Attrs {
                        file_id: ino,
                        parent_id: 0,
                        item_type: t,
                        mode: m.mode,
                        uid: m.uid,
                        gid: m.gid,
                        size: m.size,
                        link_count: m.nlink,
                        atime_sec: m.atime.0,
                        atime_nsec: m.atime.1,
                        mtime_sec: m.mtime.0,
                        mtime_nsec: m.mtime.1,
                        ctime_sec: m.ctime.0,
                        ctime_nsec: m.ctime.1,
                    },
                ),
                None => Err(OverlayError::StatFailed),
            },
            None => Err(OverlayError::StatFailed),
        }
    }

    /// Looks up `name` in directory `parent`; returns its inode number.
    pub fn lookup(&mut self, parent: u64, name: &str, base: &BaseLayer) -> (r: Result<u64, OverlayError>)
        requires
            old(self).wf(),
            base.wf(),
        ensures
            final(self).wf(),
            (final(self)@, r) == old(self)@.lookup(parent, name@, base@),
    {
        let pp = match self.path_for(parent) {
            Some(p) => p,
            None => {
                return Err(OverlayError::ParentNotFound(parent));
            },
        };
        let n = chars_of(name);
        let cp = join(&pp, &n);
        if self.db.is_whiteout_at(&cp) {
            return Err(OverlayError::WhitedOut);
        }
        if self.db.has_path_at(&cp) || base.find(&cp).is_some() {
            return self.assign_result(&cp);
        }
        Err(OverlayError::NotFound)
    }

    /// Creates `name` in `parent` in the upper layer, at time `now`.
    fn create_entry(
        &mut self,
        parent: u64,
        name: &str,
        item_type: ItemType,
        mode: u32,
        target: Option<&str>,
        now: (i64, i64),
    ) -> (r: Result<u64, OverlayError>)
        requires
            old(self).wf(),
            item_type == ItemType::Symlink || target is None,
            target is Some ==> mode == 511,
        ensures
            final(self).wf(),
            (final(self)@, r) == old(self)@.create(
                parent,
                name@,
                item_type,
                mode,
                match target {
                    Some(t) => Some(t@),
                    None => None,
                },
                now,
            ),
    {
        let pp = match self.path_for(parent) {
            Some(p) => p,
            None => {
                return Err(OverlayError::ParentNotFound(parent));
            },
        };
        let n = chars_of(name);
        let cp = join(&pp, &n);
        let cps = string_of(&cp);
        self.db.remove_whiteout_at(&cp);
        let r = match target {
            Some(t) => self.db.create_symlink_by_path_at(&cps, t, now),
            None => self.db.create_by_path_at(&cps, item_type, mode, now),
        };
        match r {
            Err(e) => Err(OverlayError::Db(e)),
            Ok(_) => self.assign_result(&cp),
        }
    }

    /// Creates `name` of type `item_type` with permissions `mode` in directory
    /// `parent`, at time `now`; returns its inode number.
    pub fn create_at(
        &mut self,
        parent: u64,
        name: &str,
        item_type: ItemType,
        mode: u32,
        now: (i64, i64),
    ) -> (r: Result<u64, OverlayError>)
        requires
            old(self).wf(),
        ensures
            final(self).wf(),
            (final(self)@, r) == old(self)@.create(parent, name@, item_type, mode, None, now),
    {
        self.create_entry(parent, name, item_type, mode, None, now)
    }

    /// Creates `name` of type `item_type` with permissions `mode` in directory
    /// `parent`, now; returns its inode number.
    pub fn create(&mut self, parent: u64, name: &str, item_type: ItemType, mode: u32) -> (r: Result<
        u64,
        OverlayError,
    >)
        requires
            old(self).wf(),
        ensures
            final(self).wf(),
            exists|t: (i64, i64)|
                valid_time(t) && (final(self)@, r) == #[trigger] old(self)@.create(
                    parent,
                    name@,
                    item_type,
                    mode,
                    None,
                    t,
                ),
    {
        let now = now_timespec();
        self.create_at(parent, name, item_type, mode, now)
    }

    /// Creates directory `name` with permissions `mode` in directory `parent`,
    /// now; returns its inode number.
    pub fn mkdir(&mut self, parent: u64, name: &str, mode: u32) -> (r: Result<u64, OverlayError>)
        requires
            old(self).wf(),
        ensures
            final(self).wf(),
            exists|t: (i64, i64)|
                valid_time(t) && (final(self)@, r) == #[trigger] old(self)@.create(
                    parent,
                    name@,
                    ItemType::Directory,
                    mode,
                    None,
                    t,
                ),
    {
        self.create(parent, name, ItemType::Directory, mode)
    }

    /// Creates symlink `name` pointing to `target` in directory `parent`, at
    /// time `now`; returns its inode number.
    pub fn symlink_at(&mut self, parent: u64, name: &str, target: &str, now: (i64, i64)) -> (r: Result<
        u64,
        OverlayError,
    >)
        requires
            old(self).wf(),
        ensures
            final(self).wf(),
            (final(self)@, r) == old(self)@.create(
                parent,
                name@,
                ItemType::Symlink,
                511,
                Some(target@),
                now,
            ),
    {
        self.create_entry(parent, name, ItemType::Symlink, 511, Some(target), now)
    }

    /// Creates symlink `name` pointing to `target` in directory `parent`, now;
    /// returns its inode number.
    pub fn symlink(&mut self, parent: u64, name: &str, target: &str) -> (r: Result<u64, OverlayError>)
        requires
            old(self).wf(),
        ensures
            final(self).wf(),
            exists|t: (i64, i64)|
                valid_time(t) && (final(self)@, r) == #[trigger] old(self)@.create(
                    parent,
                    name@,
                    ItemType::Symlink,
                    511,
                    Some(target@),
                    t,
                ),
    {
        let now = now_timespec();
        self.symlink_at(parent, name, target, now)
    }

    /// Reads through `ino` from `offset` into `buf`; returns how many bytes it
    /// placed at the start of `buf`.
    pub fn read(&self, ino: u64, offset: u64, buf: &mut Vec<u8>, base: &BaseLayer) -> (r: Result<
        usize,
        OverlayError,
    >)
        requires
            self.wf(),
            base.wf(),
        ensures
            (final(buf)@, r) == self@.read(ino, offset, old(buf)@, base@),
    {
        let p = match self.path_for(ino) {
            Some(p) => p,
            None => {
                return Err(OverlayError::InodeNotFound(ino));
            },
        };
        if self.db.is_whiteout_at(&p) {
            return Err(OverlayError::WhitedOut);
        }
        match self.db.read_at(&p, offset, buf) {
            Ok(n) => {
                return Ok(n);
            },
            Err(_) => {},
        }
        match base.find(&p) {
            Some(i) => {
                if is_file_stat(base.entry(i).stat()) {
                    let n = read_bytes_into(base.entry(i).content(), offset, buf);
                    Ok(n)
                } else {
                    Err(OverlayError::BaseReadFailed)
                }
            },
            None => Err(OverlayError::BaseReadFailed),
        }
    }

    /// Writes `data` at `offset` through `ino`, at time `now`, copying a
    /// base-only path up first; returns how many bytes were written.
    pub fn write_at(&mut self, ino: u64, offset: u64, data: &[u8], base: &BaseLayer, now: (i64, i64)) -> (r:
        Result<usize, OverlayError>)
        requires
            old(self).wf(),
            base.wf(),
            offset + data@.len() <= usize::MAX,
        ensures
            final(self).wf(),
            (final(self)@, r) == old(self)@.write(ino, offset, data@, base@, now),
    {
        let p = match self.path_for(ino) {
            Some(p) => p,
            None => {
                return Err(OverlayError::InodeNotFound(ino));
            },
        };
        if !self.db.has_path_at(&p) {
            match copy_up_exec(&mut self.db, &p, base, now) {
                Err(e) => {
                    return Err(OverlayError::Db(e));
                },
                Ok(_) => {},
            }
        }
        match self.db.write_at(&p, offset, data, now) {
            Ok(n) => Ok(n),
            Err(e) => Err(OverlayError::Db(e)),
        }
    }

    /// Writes `data` at `offset` through `ino`, now, copying a base-only path
    /// up first; returns how many bytes were written.
    pub fn write(&mut self, ino: u64, offset: u64, data: &[u8], base: &BaseLayer) -> (r: Result<
        usize,
        OverlayError,
    >)
        requires
            old(self).wf(),
            base.wf(),
            offset + data@.len() <= usize::MAX,
        ensures
            final(self).wf(),
            exists|t: (i64, i64)|
                valid_time(t) && (final(self)@, r) == #[trigger] old(self)@.write(
                    ino,
                    offset,
                    data@,
                    base@,
                    t,
                ),
    {
        let now = now_timespec();
        self.write_at(ino, offset, data, base, now)
    }

    /// Removes the entry reached through `ino`, hiding its base entry with a
    /// whiteout.
    pub fn remove(&mut self, ino: u64, base: &BaseLayer) -> (r: Result<(), OverlayError>)
        requires
            old(self).wf(),
            base.wf(),
        ensures
            final(self).wf(),
            (final(self)@, r) == old(self)@.remove(ino, base@),
    {
        let p = match self.path_for(ino) {
            Some(p) => p,
            None => {
                return Err(OverlayError::InodeNotFound(ino));
            },
        };
        self.db.remove_at(&p);
        if base.find(&p).is_some() {
            self.db.add_whiteout_at(&p);
        }
        Ok(())
    }

    /// The target of the symlink reached through `ino`.
    pub fn readlink(&self, ino: u64, base: &BaseLayer) -> (r: Result<String, OverlayError>)
        requires
            self.wf(),
            base.wf(),
        ensures
            match self@.readlink(ino, base@) {
                Ok(t) => r matches Ok(s) && s@ == t,
                Err(e) => r == Err::<String, OverlayError>(e),
            },
    {
        let p = match self.path_for(ino) {
            Some(p) => p,
            None => {
                return Err(OverlayError::InodeNotFound(ino));
            },
        };
        match self.db.symlink_at(&p) {
            Ok(t) => {
                return Ok(string_of(&t));
            },
            Err(_) => {},
        }
        match base.find(&p) {
            Some(i) => match base.entry(i).target() {
                Some(t) => Ok(string_of(t)),
                None => Err(OverlayError::BaseReadFailed),
            },
            None => Err(OverlayError::BaseReadFailed),
        }
    }

    /// Changes the attributes reached through `ino`, at time `now`: mode,
    /// size (cutting or zero-extending), access and modification times.
    pub fn setattr_at(
        &mut self,
        ino: u64,
        mode: Option<u32>,
        size: Option<u64>,
        atime: Option<(i64, i64)>,
        mtime: Option<(i64, i64)>,
        base: &BaseLayer,
        now: (i64, i64),
    ) -> (r: Result<(), OverlayError>)
        requires
            old(self).wf(),
            base.wf(),
            size matches Some(s) ==> s <= usize::MAX,
        ensures
            final(self).wf(),
            (final(self)@, r) == old(self)@.setattr(ino, mode, size, atime, mtime, base@, now),
    {
        let p = match self.path_for(ino) {
            Some(p) => p,
            None => {
                return Err(OverlayError::InodeNotFound(ino));
            },
        };
        if (mode.is_some() || size.is_some()) && !self.db.has_path_at(&p) {
            match copy_up_exec(&mut self.db, &p, base, now) {
                Err(e) => {
                    return Err(OverlayError::Db(e));
                },
                Ok(_) => {},
            }
        }
        match mode {
            Some(m) => self.db.update_mode_at(&p, m, now),
            None => {},
        }
        match size {
            Some(s) => match self.db.truncate_at(&p, s, now) {
                Err(e) => {
                    return Err(OverlayError::Db(e));
                },
                Ok(_) => {},
            },
            None => {},
        }
        if atime.is_some() || mtime.is_some() {
            match self.db.attrs_at(&p) {
                Ok(cur) => {
                    let a = match atime {
                        Some(t) => t,
                        None => (cur.atime_sec, cur.atime_nsec),
                    };
                    let m = match mtime {
                        Some(t) => t,
                        None => (cur.mtime_sec, cur.mtime_nsec),
                    };
                    self.db.update_times_at(&p, Some(a.0), Some(a.1), Some(m.0), Some(m.1), now);
                },
                Err(_) => {},
            }
        }
        Ok(())
    }

    /// Changes the attributes reached through `ino`, now: mode, size (cutting
    /// or zero-extending), access and modification times.
    pub fn setattr(
        &mut self,
        ino: u64,
        mode: Option<u32>,
        size: Option<u64>,
        atime: Option<(i64, i64)>,
        mtime: Option<(i64, i64)>,
        base: &BaseLayer,
    ) -> (r: Result<(), OverlayError>)
        requires
            old(self).wf(),
            base.wf(),
            size matches Some(s) ==> s <= usize::MAX,
        ensures
            final(self).wf(),
            exists|t: (i64, i64)|
                valid_time(t) && (final(self)@, r) == #[trigger] old(self)@.setattr(
                    ino,
                    mode,
                    size,
                    atime,
                    mtime,
                    base@,
                    t,
                ),
    {
        let now = now_timespec();
        self.setattr_at(ino, mode, size, atime, mtime, base, now)
    }

    /// Every path of the upper layer with its type, in table order.
    pub fn get_all_inodes(&self) -> (r: Vec<(String, ItemType)>)
        ensures
            typed_paths_view(r@) == self@.db.all_paths(),
    {
        self.db.all_paths()
    }

    /// Every whiteout path, in the order they were added.
    pub fn get_all_whiteouts(&self) -> (r: Vec<String>)
        ensures
            strings_view(r@) == self@.db.whiteouts,
    {
        self.db.all_whiteouts()
    }

    /// The contents that the upper layer holds for `path`.
    pub fn read_file_data(&self, path: &str) -> (r: Result<Vec<u8>, OverlayError>)
        requires
            self.wf(),
        ensures
            self@.db.has_path(path@) && self@.db.row_at(path@).data is Some ==> (r matches Ok(d)
                && d@ == self@.db.row_at(path@).data.unwrap()),
            !(self@.db.has_path(path@) && self@.db.row_at(path@).data is Some) ==> r == Err::<
                Vec<u8>,
                OverlayError,
            >(OverlayError::Db(DbError::NoRows)),
    {
        match self.db.read_file_data(path) {
            Ok(d) => Ok(d),
            Err(e) => Err(OverlayError::Db(e)),
        }
    }

    /// The upper layer.
    pub fn database(&self) -> (r: &Database)
        ensures
            r@ == self@.db,
    {
        &self.db
    }

    /// The registered inode numbers follow a move of `from` to `to`.
    fn remap_inodes(&mut self, from: &Vec<char>, to: &Vec<char>)
        requires
            old(self).wf(),
        ensures
            final(self).wf(),
            final(self)@ == (OverlayView { inodes: remap_in(old(self)@.inodes, from@, to@), ..old(self)@ }),
    {
        let ghost s = self@.inodes;
        let mut old_pre = copy_chars(from);
        old_pre.push('/');
        let mut new_pre = copy_chars(to);
        new_pre.push('/');
        let mut out: Vec<(u64, Vec<char>)> = Vec::new();
        let mut k: usize = 0;
        while k < self.inodes.len()
            invariant
                self@ == old(self)@,
                s == self@.inodes,
                self.wf(),
                old_pre@ == from@.push('/'),
                new_pre@ == to@.push('/'),
                k <= self.inodes.len(),
                inodes_view(out@) == remap_in(s.take(k as int), from@, to@),
                forall|a: int|
                    0 <= a < out@.len() ==> remapped_before(s, k as int, #[trigger] inodes_view(out@)[a], from@, to@),
                forall|a: int, b: int|
                    #![trigger inodes_view(out@)[a], inodes_view(out@)[b]]
                    0 <= a < out@.len() && 0 <= b < out@.len() && a != b ==> inodes_view(out@)[a].0
                        != inodes_view(out@)[b].0 && inodes_view(out@)[a].1 != inodes_view(out@)[b].1,
                forall|a: int| 0 <= a < out@.len() ==> #[trigger] inodes_view(out@)[a].0 < self.next_inode,
            decreases self.inodes.len() - k,
        {
            let ghost pre = out@;
            assert(s[k as int] == (self.inodes@[k as int].0, self.inodes@[k as int].1@));
            assert(s.take(k + 1).drop_last() =~= s.take(k as int));
            let (ino, ref p) = self.inodes[k];
            let np: Option<Vec<char>> = if chars_eq(p, from) {
                Some(copy_chars(to))
            } else if starts_with(p, &old_pre) {
                assert(p@.len() >= from@.len() + 1);
                assert(from.len() + 1 <= p.len());
                let rest = suffix_from(p, from.len() + 1);
                Some(concat(&new_pre, &rest))
            } else if chars_eq(p, to) || starts_with(p, &new_pre) {
                None
            } else {
                Some(copy_chars(p))
            };
            match np {
                Some(q) => {
                    let ghost e = (ino, q@);
                    assert(remap_entry(s[k as int], from@, to@) == Some(e));
                    proof {
                        assert forall|a: int| 0 <= a < pre.len() implies inodes_view(pre)[a].0 != e.0
                            && inodes_view(pre)[a].1 != e.1 by {
                            let j = choose|j: int|
                                0 <= j < k && #[trigger] remap_entry(s[j], from@, to@) == Some(
                                    inodes_view(pre)[a],
                                );
                            assert(s[j] != s[k as int]);
                            assert(s[j].0 != s[k as int].0 && s[j].1 != s[k as int].1);
                            lemma_remap_distinct(s[j].1, s[k as int].1, from@, to@);
                        }
                    }
                    out.push((ino, q));
                    proof {
                        assert(inodes_view(out@) =~= inodes_view(pre).push(e));
                        assert forall|a: int| 0 <= a < out@.len() implies remapped_before(
                            s,
                            k + 1,
                            #[trigger] inodes_view(out@)[a],
                            from@,
                            to@,
                        ) by {
                            if a < pre.len() {
                                let j = choose|j: int|
                                    0 <= j < k && #[trigger] remap_entry(s[j], from@, to@) == Some(
                                        inodes_view(pre)[a],
                                    );
                                assert(inodes_view(out@)[a] == inodes_view(pre)[a]);
                                assert(remap_entry(s[j], from@, to@) == Some(inodes_view(out@)[a]));
                            } else {
                                assert(remap_entry(s[k as int], from@, to@) == Some(inodes_view(out@)[a]));
                            }
                        }
                    }
                },
                None => {
                    assert(remap_entry(s[k as int], from@, to@) is None);
                    proof {
                        assert forall|a: int| 0 <= a < out@.len() implies remapped_before(
                            s,
                            k + 1,
                            #[trigger] inodes_view(out@)[a],
                            from@,
                            to@,
                        ) by {
                            let j = choose|j: int|
                                0 <= j < k && #[trigger] remap_entry(s[j], from@, to@) == Some(
                                    inodes_view(out@)[a],
                                );
                            assert(remap_entry(s[j], from@, to@) == Some(inodes_view(out@)[a]));
                        }
                    }
                },
            }
            k = k + 1;
        }
        assert(s.take(self.inodes.len() as int) =~= s);
        self.inodes = out;
    }

    /// Moves `fname` in directory `fd` to `tname` in directory `td`, at time
    /// `now`.
    pub fn rename_at(
        &mut self,
        fd: u64,
        fname: &str,
        td: u64,
        tname: &str,
        base: &BaseLayer,
        now: (i64, i64),
    ) -> (r: Result<(), OverlayError>)
        requires
            old(self).wf(),
            base.wf(),
        ensures
            final(self).wf(),
            (final(self)@, r) == old(self)@.rename(fd, fname@, td, tname@, base@, now),
    {
        let fp = match self.path_for(fd) {
            Some(p) => p,
            None => {
                return Err(OverlayError::ParentNotFound(fd));
            },
        };
        let tp = match self.path_for(td) {
            Some(p) => p,
            None => {
                return Err(OverlayError::ParentNotFound(td));
            },
        };
        let from = join(&fp, &chars_of(fname));
        let to = join(&tp, &chars_of(tname));
        if self.db.is_whiteout_at(&from) {
            return Err(OverlayError::WhitedOut);
        }
        let same = chars_eq(&from, &to);
        if self.db.has_path_at(&from) {
            if !same {
                self.db.remove_at(&to);
            }
            match self.db.rename_at(&from, &to, now) {
                Err(e) => {
                    return Err(OverlayError::Db(e));
                },
                Ok(_) => {},
            }
            self.db.remove_whiteout_at(&to);
            if base.find(&from).is_some() && !same {
                self.db.add_whiteout_at(&from);
            }
            self.remap_inodes(&from, &to);
            return Ok(());
        }
        match base.find(&from) {
            None => Err(OverlayError::NotFound),
            Some(i) => {
                let e = base.entry(i);
                if e.kind() == ItemType::Directory {
                    return Err(OverlayError::BaseDirectoryRename);
                }
                if same {
                    return Ok(());
                }
                self.db.remove_at(&to);
                self.db.remove_whiteout_at(&to);
                let r = if e.kind() == ItemType::Symlink {
                    let t = match e.target() {
                        Some(t) => Some(copy_chars(t)),
                        None => None,
                    };
                    match self.db.create_row(copy_chars(&to), ItemType::Symlink, 511, t, now) {
                        Ok(_) => Ok(()),
                        Err(x) => Err(x),
                    }
                } else {
                    copy_file_exec(&mut self.db, &to, e.meta().mode & 0o7777, e.content(), now)
                };
                match r {
                    Err(x) => Err(OverlayError::Db(x)),
                    Ok(_) => {
                        self.db.add_whiteout_at(&from);
                        self.remap_inodes(&from, &to);
                        Ok(())
                    },
                }
            },
        }
    }

    /// Moves `fname` in directory `fd` to `tname` in directory `td`, now.
    pub fn rename(&mut self, fd: u64, fname: &str, td: u64, tname: &str, base: &BaseLayer) -> (r:
        Result<(), OverlayError>)
        requires
            old(self).wf(),
            base.wf(),
        ensures
            final(self).wf(),
            exists|t: (i64, i64)|
                valid_time(t) && (final(self)@, r) == #[trigger] old(self)@.rename(
                    fd,
                    fname@,
                    td,
                    tname@,
                    base@,
                    t,
                ),
    {
        let now = now_timespec();
        self.rename_at(fd, fname, td, tname, base, now)
    }

    /// Whether `name` is among `names`.
    fn has_name(names: &Vec<Vec<char>>, name: &Vec<char>) -> (r: bool)
        ensures
            r == exists|m: int| 0 <= m < names@.len() && (#[trigger] names@[m])@ == name@,
    {
        let mut m: usize = 0;
        while m < names.len()
            invariant
                m <= names.len(),
                forall|x: int| 0 <= x < m ==> (#[trigger] names@[x])@ != name@,
            decreases names.len() - m,
        {
            if chars_eq(&names[m], name) {
                return true;
            }
            m = m + 1;
        }
        false
    }

    /// The names and types a listing of `d` considers.
    fn gather(&self, d: &Vec<char>, base: &BaseLayer) -> (r: Vec<(Vec<char>, ItemType)>)
        ensures
            cands_view(r@) == self@.listing(d@, base@),
    {
        let mut cands = self.db.child_names(d);
        let more = base.child_names(d);
        let mut j: usize = 0;
        let ghost up = cands_view(cands@);
        while j < more.len()
            invariant
                j <= more.len(),
                cands_view(cands@) == up + cands_view(more@).take(j as int),
            decreases more.len() - j,
        {
            let ghost pre = cands@;
            let e = (copy_chars(&more[j].0), more[j].1);
            cands.push(e);
            assert(cands_view(cands@) =~= cands_view(pre).push((e.0@, e.1)));
            assert(cands_view(more@)[j as int] == (e.0@, e.1));
            assert(cands_view(more@).take(j + 1) =~= cands_view(more@).take(j as int).push((e.0@, e.1)));
            j = j + 1;
            assert(cands_view(cands@) =~= up + cands_view(more@).take(j as int));
        }
        assert(cands_view(more@).take(more.len() as int) =~= cands_view(more@));
        cands
    }

    /// Lists the candidates `cands` of directory `d` in order.
    fn fold_listing(&mut self, d: &Vec<char>, cands: &Vec<(Vec<char>, ItemType)>) -> (r: Result<
        Vec<DirEntry>,
        OverlayError,
    >)
        requires
            old(self).wf(),
        ensures
            final(self).wf(),
            final(self)@ == old(self)@.readdir_fold(d@, cands_view(cands@)).0,
            old(self)@.readdir_fold(d@, cands_view(cands@)).2 ==> (r matches Ok(v) && entries_view(v@)
                == old(self)@.readdir_fold(d@, cands_view(cands@)).1),
            !old(self)@.readdir_fold(d@, cands_view(cands@)).2 ==> r == Err::<Vec<DirEntry>, OverlayError>(
                OverlayError::InodesExhausted,
            ),
    {
        let ghost v0 = self@;
        let ghost cv = cands_view(cands@);
        let mut out: Vec<DirEntry> = Vec::new();
        let mut names: Vec<Vec<char>> = Vec::new();
        let mut k: usize = 0;
        assert(cv.take(0) =~= Seq::<(Seq<char>, ItemType)>::empty());
        while k < cands.len()
            invariant
                self.wf(),
                v0 == old(self)@,
                cv == cands_view(cands@),
                k <= cands.len(),
                (self@, entries_view(out@), true) == v0.readdir_fold(d@, cv.take(k as int)),
                names@.len() == out@.len(),
                forall|m: int| 0 <= m < names@.len() ==> (#[trigger] names@[m])@ == entries_view(out@)[m].1,
            decreases cands.len() - k,
        {
            let ghost pre_out = entries_view(out@);
            assert(cv.take(k + 1).drop_last() =~= cv.take(k as int));
            assert(cv.take(k + 1).last() == cv[k as int]);
            assert(cv[k as int] == (cands@[k as int].0@, cands@[k as int].1));
            let cp = join(d, &cands[k].0);
            let seen = Self::has_name(&names, &cands[k].0);
            assert(seen == listed(pre_out, cands@[k as int].0@)) by {
                if seen {
                    let m = choose|m: int| 0 <= m < names@.len() && (#[trigger] names@[m])@ == cands@[k as int].0@;
                    assert(pre_out[m].1 == cands@[k as int].0@);
                }
                if listed(pre_out, cands@[k as int].0@) {
                    let m = choose|m: int| 0 <= m < pre_out.len() && (#[trigger] pre_out[m]).1 == cands@[k as int].0@;
                    assert(names@[m]@ == cands@[k as int].0@);
                }
            }
            if self.db.is_whiteout_at(&cp) || seen {
                k = k + 1;
            } else {
                match self.assign_inode(&cp) {
                    None => {
                        proof {
                            assert(v0.readdir_fold(d@, cv.take(k + 1)) == (self@, pre_out, false));
                            lemma_fold_stuck(v0, d@, cv, k + 1);
                        }
                        return Err(OverlayError::InodesExhausted);
                    },
                    Some(ino) => {
                        let e = DirEntry { inode_id: ino, name: string_of(&cands[k].0), item_type: cands[k].1 };
                        let ghost pre = out@;
                        out.push(e);
                        names.push(copy_chars(&cands[k].0));
                        assert(entries_view(out@) =~= entries_view(pre).push(entry_view(e)));
                        k = k + 1;
                    },
                }
            }
        }
        assert(cv.take(cands.len() as int) =~= cv);
        Ok(out)
    }

    /// Lists the directory reached through `dir`: its upper entries, then its
    /// base entries, skipping whited-out paths and names already listed; each
    /// listed entry gets an inode number.
    pub fn readdir(&mut self, dir: u64, base: &BaseLayer) -> (r: Result<Vec<DirEntry>, OverlayError>)
        requires
            old(self).wf(),
            base.wf(),
        ensures
            final(self).wf(),
            final(self)@ == old(self)@.readdir(dir, base@).0,
            match old(self)@.readdir(dir, base@).1 {
                Ok(es) => r matches Ok(v) && entries_view(v@) == es,
                Err(e) => r == Err::<Vec<DirEntry>, OverlayError>(e),
            },
    {
        let d = match self.path_for(dir) {
            Some(p) => p,
            None => {
                return Err(OverlayError::InodeNotFound(dir));
            },
        };
        let cands = self.gather(&d, base);
        self.fold_listing(&d, &cands)
    }
}

} // verus!

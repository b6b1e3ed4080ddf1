//! The overlay's upper layer: a table of inode rows (type, permissions, times,
//! symlink target, file contents), the set of whiteout paths that hide base
//! entries, and the stored base path.
//!
//! The table follows the overlay database schema: `path` is unique,
//! `(parent_id, name)` is unique, ids are assigned in increasing order and
//! never reused, and the root row (id 1) has no path.
use vstd::prelude::*;
use crate::clock::now_timespec;
use crate::text::{
    chars_eq, chars_of, child_name, child_of, concat, copy_chars, is_child, starts_with, suffix_from, is_prefix, name_for, name_of, root_chars, string_of,
};

verus! {

/// The kind of a filesystem entry.
#[derive(Debug, Clone, Copy, PartialEq, Eq, Structural)]
pub enum ItemType {
    File,
    Directory,
    Symlink,
}

/// Why a database operation failed.
#[derive(Debug, Clone, Copy, PartialEq, Eq, Structural)]
pub enum DbError {
    /// No row matched the query.
    NoRows,
    /// A `path` or `(parent_id, name)` uniqueness constraint would be broken.
    ConstraintViolation,
    /// The requested column holds no value (a symlink target of a non-symlink).
    NullColumn,
    /// No inode id is left to assign.
    Full,
    /// A stored type code that names no item type.
    InvalidItemType(i64),
}

impl ItemType {
    /// The code under which the type is stored.
    pub open spec fn spec_code(self) -> i64 {
        match self {
            ItemType::File => 0,
            ItemType::Directory => 1,
            ItemType::Symlink => 2,
        }
    }

    /// The code under which the type is stored.
    pub fn code(self) -> (r: i64)
        ensures
            r == self.spec_code(),
    {
        match self {
            ItemType::File => 0,
            ItemType::Directory => 1,
            ItemType::Symlink => 2,
        }
    }

    /// The item type stored under `value`.
    pub fn try_from(value: i64) -> (r: Result<ItemType, DbError>)
        ensures
            r is Ok <==> 0 <= value <= 2,
            r matches Ok(t) ==> t.spec_code() == value,
            r matches Err(e) ==> e == DbError::InvalidItemType(value),
    {
        match value {
            0 => Ok(ItemType::File),
            1 => Ok(ItemType::Directory),
            2 => Ok(ItemType::Symlink),
            _ => Err(DbError::InvalidItemType(value)),
        }
    }
}

/// The attributes of an entry.
#[derive(Debug, Clone, Copy, PartialEq, Eq, Structural)]
pub struct Attrs {
    pub file_id: u64,
    pub parent_id: u64,
    pub item_type: ItemType,
    pub mode: u32,
    pub uid: u32,
    pub gid: u32,
    pub size: u64,
    pub link_count: u32,
    pub atime_sec: i64,
    pub atime_nsec: i64,
    pub mtime_sec: i64,
    pub mtime_nsec: i64,
    pub ctime_sec: i64,
    pub ctime_nsec: i64,
}

/// An entry of a directory listing.
#[derive(Debug, Clone)]
pub struct DirEntry {
    pub inode_id: u64,
    pub name: String,
    pub item_type: ItemType,
}

/// What a listing entry holds, as plain values.
pub open spec fn entry_view(e: DirEntry) -> (u64, Seq<char>, ItemType) {
    (e.inode_id, e.name@, e.item_type)
}

/// A row of the inode table, as plain values.
pub struct RowView {
    pub id: u64,
    pub parent_id: u64,
    pub name: Seq<char>,
    pub path: Option<Seq<char>>,
    pub item_type: ItemType,
    pub mode: u32,
    pub uid: u32,
    pub gid: u32,
    pub size: u64,
    pub link_count: u32,
    pub atime: (i64, i64),
    pub mtime: (i64, i64),
    pub ctime: (i64, i64),
    pub btime: (i64, i64),
    pub symlink_target: Option<Seq<char>>,
    pub data: Option<Seq<u8>>,
}

/// A row of the inode table.
pub struct Row {
    pub id: u64,
    pub parent_id: u64,
    pub name: Vec<char>,
    pub path: Option<Vec<char>>,
    pub item_type: ItemType,
    pub mode: u32,
    pub uid: u32,
    pub gid: u32,
    pub size: u64,
    pub link_count: u32,
    pub atime: (i64, i64),
    pub mtime: (i64, i64),
    pub ctime: (i64, i64),
    pub btime: (i64, i64),
    pub symlink_target: Option<Vec<char>>,
    pub data: Option<Vec<u8>>,
}

/// The view of an optional character vector.
pub open spec fn opt_chars(o: Option<Vec<char>>) -> Option<Seq<char>> {
    match o {
        Some(v) => Some(v@),
        None => None,
    }
}

/// The view of optional bytes.
pub open spec fn opt_bytes(o: Option<Vec<u8>>) -> Option<Seq<u8>> {
    match o {
        Some(v) => Some(v@),
        None => None,
    }
}

impl View for Row {
    type V = RowView;

    open spec fn view(&self) -> RowView {
        RowView {
            id: self.id,
            parent_id: self.parent_id,
            name: self.name@,
            path: opt_chars(self.path),
            item_type: self.item_type,
            mode: self.mode,
            uid: self.uid,
            gid: self.gid,
            size: self.size,
            link_count: self.link_count,
            atime: self.atime,
            mtime: self.mtime,
            ctime: self.ctime,
            btime: self.btime,
            symlink_target: opt_chars(self.symlink_target),
            data: opt_bytes(self.data),
        }
    }
}

/// The attributes recorded in a row.
pub open spec fn attrs_of(r: RowView) -> Attrs {
    Attrs {
        file_id: r.id,
        parent_id: r.parent_id,
        item_type: r.item_type,
        mode: r.mode,
        uid: r.uid,
        gid: r.gid,
        size: r.size,
        link_count: r.link_count,
        atime_sec: r.atime.0,
        atime_nsec: r.atime.1,
        mtime_sec: r.mtime.0,
        mtime_nsec: r.mtime.1,
        ctime_sec: r.ctime.0,
        ctime_nsec: r.ctime.1,
    }
}

/// The largest inode id the table can hold.
pub open spec fn max_id() -> u64 {
    0x7fff_ffff_ffff_ffff
}

/// The row of the root directory, created at `now`.
pub open spec fn root_row(now: (i64, i64)) -> RowView {
    RowView {
        id: 1,
        parent_id: 0,
        name: seq!['/'],
        path: None,
        item_type: ItemType::Directory,
        mode: 448,
        uid: 0,
        gid: 0,
        size: 0,
        link_count: 1,
        atime: now,
        mtime: now,
        ctime: now,
        btime: now,
        symlink_target: None,
        data: None,
    }
}

/// The row that a create at `path` adds: id `id`, name the final component of
/// the path, owner 0:0, size 0, one link, all times `now`; a file starts with
/// empty contents, a symlink with its target.
pub open spec fn new_row(
    id: u64,
    path: Seq<char>,
    item_type: ItemType,
    mode: u32,
    target: Option<Seq<char>>,
    now: (i64, i64),
) -> RowView {
    RowView {
        id,
        parent_id: 0,
        name: name_of(path),
        path: Some(path),
        item_type,
        mode,
        uid: 0,
        gid: 0,
        size: 0,
        link_count: 1,
        atime: now,
        mtime: now,
        ctime: now,
        btime: now,
        symlink_target: target,
        data: if item_type == ItemType::File {
            Some(Seq::empty())
        } else {
            None
        },
    }
}

/// The contents after writing `data` at `offset` into `cur`: the file grows to
/// `max(offset + data.len(), cur.len())`, gaps read as zero bytes.
pub open spec fn splice(cur: Seq<u8>, offset: int, data: Seq<u8>) -> Seq<u8> {
    let len = if offset + data.len() > cur.len() {
        offset + data.len()
    } else {
        cur.len() as int
    };
    Seq::new(
        len as nat,
        |i: int|
            if offset <= i < offset + data.len() {
                data[i - offset]
            } else if i < cur.len() {
                cur[i]
            } else {
                0u8
            },
    )
}

/// Reading `d` from `offset` into `buf`: the first `n` bytes of the buffer take
/// the bytes at `offset..offset + n`, where `n` is what is left of `d` or the
/// buffer's length, whichever is smaller (0 from the end of `d` on); the rest of
/// the buffer is unchanged.
pub open spec fn read_into(d: Seq<u8>, offset: u64, buf: Seq<u8>) -> (Seq<u8>, usize) {
    if offset >= d.len() {
        (buf, 0)
    } else {
        let n = if d.len() - offset < buf.len() {
            d.len() - offset
        } else {
            buf.len() as int
        };
        (d.subrange(offset as int, offset + n) + buf.skip(n), n as usize)
    }
}

/// `cur` cut or zero-extended to `size` bytes.
pub open spec fn resized(cur: Seq<u8>, size: int) -> Seq<u8> {
    Seq::new(size as nat, |i: int| if i < cur.len() { cur[i] } else { 0u8 })
}

/// The listing entry for a row that is directly inside `dir`.
pub open spec fn child_entry(r: RowView, dir: Seq<char>) -> Option<(u64, Seq<char>, ItemType)> {
    match r.path {
        Some(p) => if is_child(p, dir) {
            Some((r.id, r.name, r.item_type))
        } else {
            None
        },
        None => None,
    }
}

/// A row's path and type, for rows that have a path.
pub open spec fn path_entry(r: RowView) -> Option<(Seq<char>, ItemType)> {
    match r.path {
        Some(p) => Some((p, r.item_type)),
        None => None,
    }
}

/// The listing entries of the rows of `rows` directly inside `dir`, in order.
pub open spec fn children_in(rows: Seq<RowView>, dir: Seq<char>) -> Seq<(u64, Seq<char>, ItemType)>
    decreases rows.len(),
{
    if rows.len() == 0 {
        Seq::empty()
    } else {
        let rest = children_in(rows.drop_last(), dir);
        match child_entry(rows.last(), dir) {
            Some(e) => rest.push(e),
            None => rest,
        }
    }
}

/// The paths and types of the rows of `rows` that have a path, in order.
pub open spec fn paths_in(rows: Seq<RowView>) -> Seq<(Seq<char>, ItemType)>
    decreases rows.len(),
{
    if rows.len() == 0 {
        Seq::empty()
    } else {
        let rest = paths_in(rows.drop_last());
        match path_entry(rows.last()) {
            Some(e) => rest.push(e),
            None => rest,
        }
    }
}

/// The names (relative to `dir`) and types of the rows of `rows` directly
/// inside `dir`, in order.
pub open spec fn upper_cands(rows: Seq<RowView>, dir: Seq<char>) -> Seq<(Seq<char>, ItemType)>
    decreases rows.len(),
{
    if rows.len() == 0 {
        Seq::empty()
    } else {
        let rest = upper_cands(rows.drop_last(), dir);
        let r = rows.last();
        match r.path {
            Some(p) => if is_child(p, dir) {
                rest.push((child_name(p, dir), r.item_type))
            } else {
                rest
            },
            None => rest,
        }
    }
}

/// The plain values of names paired with types.
pub open spec fn cands_view(v: Seq<(Vec<char>, ItemType)>) -> Seq<(Seq<char>, ItemType)> {
    v.map_values(|e: (Vec<char>, ItemType)| (e.0@, e.1))
}

/// The plain values of listing entries.
pub open spec fn entries_view(v: Seq<DirEntry>) -> Seq<(u64, Seq<char>, ItemType)> {
    v.map_values(|e: DirEntry| entry_view(e))
}

/// The plain values of path and type pairs.
pub open spec fn typed_paths_view(v: Seq<(String, ItemType)>) -> Seq<(Seq<char>, ItemType)> {
    v.map_values(|e: (String, ItemType)| (e.0@, e.1))
}

/// The plain values of strings.
pub open spec fn strings_view(v: Seq<String>) -> Seq<Seq<char>> {
    v.map_values(|s: String| s@)
}

/// `path` lies strictly below `dir` (starts with `dir + "/"`).
pub open spec fn is_below(path: Seq<char>, dir: Seq<char>) -> bool {
    is_prefix(dir.push('/'), path)
}

/// `path` (below `old`) moved below `new`.
pub open spec fn moved_path(path: Seq<char>, old: Seq<char>, new: Seq<char>) -> Seq<char> {
    new.push('/') + path.skip(old.len() + 1int)
}

/// A row after a directory `old` moved to `new`: rows below `old` are moved
/// below `new`, others are unchanged.
pub open spec fn move_row_below(r: RowView, old: Seq<char>, new: Seq<char>) -> RowView {
    match r.path {
        Some(p) => if is_below(p, old) {
            RowView { path: Some(moved_path(p, old, new)), ..r }
        } else {
            r
        },
        None => r,
    }
}

/// Every row after a directory `old` moved to `new`.
pub open spec fn moved_rows(rows: Seq<RowView>, old: Seq<char>, new: Seq<char>) -> Seq<RowView> {
    rows.map_values(|r: RowView| move_row_below(r, old, new))
}

/// A row other than the one at position `i` has path `p`.
pub open spec fn path_taken_except(rows: Seq<RowView>, i: int, p: Seq<char>) -> bool {
    exists|j: int| 0 <= j < rows.len() && j != i && (#[trigger] rows[j]).path == Some(p)
}

/// A row other than the one at position `i` has the parent of that row and
/// name `name`.
pub open spec fn name_taken_except(rows: Seq<RowView>, i: int, name: Seq<char>) -> bool {
    exists|j: int|
        0 <= j < rows.len() && j != i && (#[trigger] rows[j]).parent_id == rows[i].parent_id
            && rows[j].name == name
}

/// No two rows share a path.
pub open spec fn paths_unique(rows: Seq<RowView>) -> bool {
    forall|i: int, j: int|
        #![trigger rows[i], rows[j]]
        0 <= i < rows.len() && 0 <= j < rows.len() && i != j && rows[i].path is Some
            ==> rows[i].path != rows[j].path
}

/// The whole table, as plain values.
pub struct DbView {
    pub rows: Seq<RowView>,
    pub whiteouts: Seq<Seq<char>>,
    pub base_path: Option<Seq<char>>,
    pub next_id: u64,
}

impl DbView {
    /// The table's constraints hold.
    pub open spec fn wf(self) -> bool {
        &&& paths_unique(self.rows)
        &&& forall|i: int, j: int|
            #![trigger self.rows[i], self.rows[j]]
            0 <= i < self.rows.len() && 0 <= j < self.rows.len() && i != j ==> !(
            self.rows[i].parent_id == self.rows[j].parent_id && self.rows[i].name
                == self.rows[j].name)
        &&& forall|i: int, j: int|
            #![trigger self.rows[i], self.rows[j]]
            0 <= i < self.rows.len() && 0 <= j < self.rows.len() && i != j ==> self.rows[i].id
                != self.rows[j].id
        &&& forall|i: int| 0 <= i < self.rows.len() ==> #[trigger] self.rows[i].id < self.next_id
        &&& forall|i: int|
            0 <= i < self.rows.len() ==> (#[trigger] self.rows[i].item_type == ItemType::File
                <==> self.rows[i].data is Some)
        &&& self.whiteouts.no_duplicates()
        &&& 1 <= self.next_id
    }

    /// Some row has `path`.
    pub open spec fn has_path(self, path: Seq<char>) -> bool {
        exists|i: int| 0 <= i < self.rows.len() && #[trigger] self.rows[i].path == Some(path)
    }

    /// The position of the row with `path`.
    pub open spec fn path_index(self, path: Seq<char>) -> int {
        choose|i: int| 0 <= i < self.rows.len() && #[trigger] self.rows[i].path == Some(path)
    }

    /// The row with `path`.
    pub open spec fn row_at(self, path: Seq<char>) -> RowView {
        self.rows[self.path_index(path)]
    }

    /// Some row has parent `parent` and name `name`.
    pub open spec fn name_taken(self, parent: u64, name: Seq<char>) -> bool {
        exists|i: int|
            0 <= i < self.rows.len() && #[trigger] self.rows[i].parent_id == parent
                && self.rows[i].name == name
    }

    /// `path` is a whiteout.
    pub open spec fn is_whiteout(self, path: Seq<char>) -> bool {
        self.whiteouts.contains(path)
    }

    /// The table with the row at `path` replaced by `r`.
    pub open spec fn with_row(self, path: Seq<char>, r: RowView) -> DbView {
        DbView { rows: self.rows.update(self.path_index(path), r), ..self }
    }

    /// A fresh table: only the root row, no whiteouts, no base path.
    pub open spec fn opened(now: (i64, i64)) -> DbView {
        DbView { rows: seq![root_row(now)], whiteouts: seq![], base_path: None, next_id: 2 }
    }

    /// Adding a row at `path` (a symlink when `target` is given): fails on an
    /// existing path, on a taken `(0, name)` pair, or when ids are exhausted.
    pub open spec fn create(
        self,
        path: Seq<char>,
        item_type: ItemType,
        mode: u32,
        target: Option<Seq<char>>,
        now: (i64, i64),
    ) -> (DbView, Result<u64, DbError>) {
        if self.has_path(path) || self.name_taken(0, name_of(path)) {
            (self, Err(DbError::ConstraintViolation))
        } else if self.next_id > max_id() {
            (self, Err(DbError::Full))
        } else {
            (
                DbView {
                    rows: self.rows.push(new_row(self.next_id, path, item_type, mode, target, now)),
                    next_id: (self.next_id + 1) as u64,
                    ..self
                },
                Ok(self.next_id),
            )
        }
    }

    /// Deleting the row at `path`, if there is one.
    pub open spec fn remove(self, path: Seq<char>) -> DbView {
        if self.has_path(path) {
            DbView { rows: self.rows.remove(self.path_index(path)), ..self }
        } else {
            self
        }
    }

    /// Reading the contents of the file at `path` from `offset` into `buf`: the
    /// first `n` bytes of the buffer take the bytes at `offset..offset + n`,
    /// where `n` is what is left of the file or the buffer's length, whichever is
    /// smaller; the rest of the buffer is unchanged.
    pub open spec fn read(self, path: Seq<char>, offset: u64, buf: Seq<u8>) -> (
        Seq<u8>,
        Result<usize, DbError>,
    ) {
        if !self.has_path(path) || self.row_at(path).data is None {
            (buf, Err(DbError::NoRows))
        } else {
            let (nb, n) = read_into(self.row_at(path).data.unwrap(), offset, buf);
            (nb, Ok(n))
        }
    }

    /// Writing `data` at `offset` into the file at `path`: the contents become
    /// `splice(old, offset, data)` (only where the row has contents), the size
    /// becomes that length and the modification time `now`.
    pub open spec fn write(self, path: Seq<char>, offset: u64, data: Seq<u8>, now: (i64, i64)) -> (
        DbView,
        Result<usize, DbError>,
    ) {
        if !self.has_path(path) {
            (self, Err(DbError::NoRows))
        } else {
            let r = self.row_at(path);
            let cur = match r.data {
                Some(d) => d,
                None => Seq::empty(),
            };
            let nd = splice(cur, offset as int, data);
            let r2 = RowView {
                size: nd.len() as u64,
                mtime: now,
                data: if r.data is Some {
                    Some(nd)
                } else {
                    None
                },
                ..r
            };
            (self.with_row(path, r2), Ok(data.len() as usize))
        }
    }

    /// Cutting or zero-extending the file at `path` to `size` bytes, with
    /// modification time `now`.
    pub open spec fn truncate(self, path: Seq<char>, size: u64, now: (i64, i64)) -> (
        DbView,
        Result<(), DbError>,
    ) {
        if !self.has_path(path) {
            (self, Err(DbError::NoRows))
        } else {
            let r = self.row_at(path);
            let cur = match r.data {
                Some(d) => d,
                None => Seq::empty(),
            };
            let r2 = RowView {
                size,
                mtime: now,
                data: if r.data is Some {
                    Some(resized(cur, size as int))
                } else {
                    None
                },
                ..r
            };
            (self.with_row(path, r2), Ok(()))
        }
    }

    /// Setting the access and modification times of the row at `path`; a
    /// missing component takes its value from `now`.
    pub open spec fn update_times(
        self,
        path: Seq<char>,
        atime_sec: Option<i64>,
        atime_nsec: Option<i64>,
        mtime_sec: Option<i64>,
        mtime_nsec: Option<i64>,
        now: (i64, i64),
    ) -> DbView {
        if self.has_path(path) {
            let r = self.row_at(path);
            let a = (
                match atime_sec {
                    Some(s) => s,
                    None => now.0,
                },
                match atime_nsec {
                    Some(s) => s,
                    None => now.1,
                },
            );
            let m = (
                match mtime_sec {
                    Some(s) => s,
                    None => now.0,
                },
                match mtime_nsec {
                    Some(s) => s,
                    None => now.1,
                },
            );
            self.with_row(path, RowView { atime: a, mtime: m, ..r })
        } else {
            self
        }
    }

    /// Setting the mode of the row at `path`, with change time `now`.
    pub open spec fn update_mode(self, path: Seq<char>, mode: u32, now: (i64, i64)) -> DbView {
        if self.has_path(path) {
            let r = self.row_at(path);
            self.with_row(path, RowView { mode, ctime: now, ..r })
        } else {
            self
        }
    }

    /// Adding `path` to the whiteouts.
    pub open spec fn add_whiteout(self, path: Seq<char>) -> DbView {
        if self.whiteouts.contains(path) {
            self
        } else {
            DbView { whiteouts: self.whiteouts.push(path), ..self }
        }
    }

    /// Taking `path` out of the whiteouts.
    pub open spec fn remove_whiteout(self, path: Seq<char>) -> DbView {
        if self.whiteouts.contains(path) {
            DbView { whiteouts: self.whiteouts.remove(self.whiteouts.index_of(path)), ..self }
        } else {
            self
        }
    }

    /// The listing of the rows directly inside `dir`, in table order.
    pub open spec fn children(self, dir: Seq<char>) -> Seq<(u64, Seq<char>, ItemType)> {
        children_in(self.rows, dir)
    }

    /// Every row's path and type, for rows that have a path, in table order.
    pub open spec fn all_paths(self) -> Seq<(Seq<char>, ItemType)> {
        paths_in(self.rows)
    }

    /// Moving `old` to `new`. For a directory, the rows below `old` move below
    /// `new` first, unless that would give two rows one path; then the row at
    /// `old` takes path `new`, name `name_of(new)` and change time `now`, unless
    /// another row already has that path or the same parent and that name. The
    /// first step stays done when the second is refused.
    pub open spec fn rename(self, old: Seq<char>, new: Seq<char>, now: (i64, i64)) -> (
        DbView,
        Result<(), DbError>,
    ) {
        if !self.has_path(old) {
            (self, Err(DbError::NoRows))
        } else {
            let i = self.path_index(old);
            let rows1 = if self.rows[i].item_type == ItemType::Directory {
                moved_rows(self.rows, old, new)
            } else {
                self.rows
            };
            if !paths_unique(rows1) {
                (self, Err(DbError::ConstraintViolation))
            } else {
                let v1 = DbView { rows: rows1, ..self };
                let nm = name_of(new);
                if path_taken_except(rows1, i, new) || name_taken_except(rows1, i, nm) {
                    (v1, Err(DbError::ConstraintViolation))
                } else {
                    (
                        DbView {
                            rows: rows1.update(
                                i,
                                RowView { path: Some(new), name: nm, ctime: now, ..rows1[i] },
                            ),
                            ..self
                        },
                        Ok(()),
                    )
                }
            }
        }
    }
}

/// Reads `d` from `offset` into `buf`; returns how many bytes it placed at
/// the start of `buf`.
pub fn read_bytes_into(d: &Vec<u8>, offset: u64, buf: &mut Vec<u8>) -> (n: usize)
    ensures
        (final(buf)@, n) == read_into(d@, offset, old(buf)@),
{
    let ghost b0 = buf@;
    if offset >= d.len() as u64 {
        return 0;
    }
    let off = offset as usize;
    let avail = d.len() - off;
    let n = if avail < buf.len() {
        avail
    } else {
        buf.len()
    };
    let mut j: usize = 0;
    while j < n
        invariant
            j <= n,
            n <= buf.len(),
            off + n <= d.len(),
            buf@.len() == b0.len(),
            buf@ == d@.subrange(off as int, off + j) + b0.skip(j as int),
        decreases n - j,
    {
        buf[j] = d[off + j];
        j = j + 1;
        assert(buf@ =~= d@.subrange(off as int, off + j) + b0.skip(j as int));
    }
    n
}

/// In a table whose paths are unique, the row at position `i` is the row
/// with its path.
pub proof fn lemma_row_at_index(v: DbView, p: Seq<char>, i: int)
    requires
        paths_unique(v.rows),
        0 <= i < v.rows.len(),
        v.rows[i].path == Some(p),
    ensures
        v.has_path(p),
        v.path_index(p) == i,
        v.row_at(p) == v.rows[i],
{
    let j = v.path_index(p);
    assert(v.rows[j].path == Some(p));
    if j != i {
        assert(v.rows[i].path != v.rows[j].path);
    }
}

/// A successful create leaves a valid table whose row at the new path is the
/// new row, and changes no other row and no whiteout.
pub proof fn lemma_create_ok(
    v: DbView,
    p: Seq<char>,
    item_type: ItemType,
    mode: u32,
    target: Option<Seq<char>>,
    now: (i64, i64),
)
    requires
        v.wf(),
        v.create(p, item_type, mode, target, now).1 is Ok,
    ensures
        ({
            let w = v.create(p, item_type, mode, target, now).0;
            &&& w.wf()
            &&& w.has_path(p)
            &&& w.row_at(p) == new_row(v.next_id, p, item_type, mode, target, now)
            &&& w.whiteouts == v.whiteouts
            &&& forall|q: Seq<char>|
                q != p ==> (#[trigger] w.has_path(q) == v.has_path(q) && (v.has_path(q) ==> w.row_at(q)
                    == v.row_at(q)))
        }),
{
    let w = v.create(p, item_type, mode, target, now).0;
    let n = v.rows.len() as int;
    let nr = new_row(v.next_id, p, item_type, mode, target, now);
    assert(w.rows == v.rows.push(nr));
    assert forall|i: int| 0 <= i < n implies #[trigger] v.rows[i].path != Some(p) by {}
    assert forall|i: int| 0 <= i < n implies !(#[trigger] v.rows[i].parent_id == 0 && v.rows[i].name
        == name_of(p)) by {}
    assert(w.wf());
    lemma_row_at_index(w, p, n);
    assert forall|q: Seq<char>| q != p implies #[trigger] w.has_path(q) == v.has_path(q) && (v.has_path(q)
        ==> w.row_at(q) == v.row_at(q)) by {
        if v.has_path(q) {
            let i = v.path_index(q);
            lemma_row_at_index(v, q, i);
            lemma_row_at_index(w, q, i);
        }
        if w.has_path(q) {
            let i = w.path_index(q);
            assert(w.rows[i].path == Some(q));
            assert(i < n);
            assert(v.rows[i].path == Some(q));
        }
    }
}

/// Replacing the row at `p` by `r` (same path, id, parent and name, with
/// contents exactly when it is a file) leaves a valid table whose row at `p`
/// is `r`, and changes no other row and no whiteout.
pub proof fn lemma_with_row(v: DbView, p: Seq<char>, r: RowView)
    requires
        v.wf(),
        v.has_path(p),
        r.path == Some(p),
        r.id == v.row_at(p).id,
        r.parent_id == v.row_at(p).parent_id,
        r.name == v.row_at(p).name,
        r.item_type == ItemType::File <==> r.data is Some,
    ensures
        ({
            let w = v.with_row(p, r);
            &&& w.wf()
            &&& w.has_path(p)
            &&& w.row_at(p) == r
            &&& w.whiteouts == v.whiteouts
            &&& w.next_id == v.next_id
            &&& forall|q: Seq<char>|
                q != p ==> (#[trigger] w.has_path(q) == v.has_path(q) && (v.has_path(q) ==> w.row_at(q)
                    == v.row_at(q)))
        }),
{
    let i = v.path_index(p);
    let w = v.with_row(p, r);
    assert(v.rows[i].path == Some(p));
    assert forall|a: int, b: int|
        #![trigger w.rows[a], w.rows[b]]
        0 <= a < w.rows.len() && 0 <= b < w.rows.len() && a != b implies w.rows[a].id
            != w.rows[b].id && !(w.rows[a].parent_id == w.rows[b].parent_id && w.rows[a].name
            == w.rows[b].name) && (w.rows[a].path is Some ==> w.rows[a].path != w.rows[b].path) by {
        assert(v.rows[a].id != v.rows[b].id);
        assert(!(v.rows[a].parent_id == v.rows[b].parent_id && v.rows[a].name == v.rows[b].name));
        if v.rows[a].path is Some {
            assert(v.rows[a].path != v.rows[b].path);
        }
        if a == i && v.rows[b].path is Some {
            assert(v.rows[b].path != v.rows[a].path);
        }
        if b == i && v.rows[a].path is Some {
            assert(v.rows[a].path != v.rows[b].path);
        }
    }
    assert forall|a: int| 0 <= a < w.rows.len() implies #[trigger] w.rows[a].id < w.next_id by {
        assert(v.rows[a].id < v.next_id);
    }
    assert forall|a: int| 0 <= a < w.rows.len() implies (#[trigger] w.rows[a].item_type == ItemType::File
        <==> w.rows[a].data is Some) by {
        assert(v.rows[a].item_type == ItemType::File <==> v.rows[a].data is Some);
    }
    assert(w.wf());
    lemma_row_at_index(w, p, i);
    assert forall|q: Seq<char>| q != p implies #[trigger] w.has_path(q) == v.has_path(q) && (v.has_path(q)
        ==> w.row_at(q) == v.row_at(q)) by {
        if v.has_path(q) {
            let j = v.path_index(q);
            lemma_row_at_index(v, q, j);
            assert(j != i);
            lemma_row_at_index(w, q, j);
        }
        if w.has_path(q) {
            let j = w.path_index(q);
            assert(w.rows[j].path == Some(q));
            assert(j != i);
            assert(v.rows[j].path == Some(q));
        }
    }
}

/// The overlay's upper layer.
pub struct Database {
    rows: Vec<Row>,
    whiteouts: Vec<Vec<char>>,
    base_path: Option<Vec<char>>,
    next_id: u64,
}

impl View for Database {
    type V = DbView;

    closed spec fn view(&self) -> DbView {
        DbView {
            rows: self.rows@.map_values(|r: Row| r@),
            whiteouts: self.whiteouts@.map_values(|w: Vec<char>| w@),
            base_path: opt_chars(self.base_path),
            next_id: self.next_id,
        }
    }
}

/// The given clock reading is a valid time: its nanoseconds are below a second.
pub open spec fn valid_time(t: (i64, i64)) -> bool {
    0 <= t.1 < 1_000_000_000
}

proof fn lemma_path_index(v: DbView, path: Seq<char>, i: int)
    requires
        v.wf(),
        0 <= i < v.rows.len(),
        v.rows[i].path == Some(path),
    ensures
        v.has_path(path),
        v.path_index(path) == i,
{
    let j = v.path_index(path);
    assert(v.rows[j].path == Some(path));
    if j != i {
        assert(v.rows[i].path != v.rows[j].path);
    }
}

impl Database {
    /// The table's constraints hold.
    pub open spec fn wf(&self) -> bool {
        self@.wf()
    }

    /// A fresh table, created at `now`: the root row only.
    pub fn open_at(now: (i64, i64)) -> (db: Database)
        ensures
            db.wf(),
            db@ == DbView::opened(now),
    {
        let root = Row {
            id: 1,
            parent_id: 0,
            name: root_chars(),
            path: None,
            item_type: ItemType::Directory,
            mode: 448,
            uid: 0,
            gid: 0,
            size: 0,
            link_count: 1,
            atime: now,
            mtime: now,
            ctime: now,
            btime: now,
            symlink_target: None,
            data: None,
        };
        let mut rows: Vec<Row> = Vec::new();
        rows.push(root);
        let db = Database { rows, whiteouts: Vec::new(), base_path: None, next_id: 2 };
        assert(db@.rows =~= seq![root_row(now)]);
        assert(db@.whiteouts =~= Seq::<Seq<char>>::empty());
        db
    }

    /// A fresh table, created now: the root row only.
    pub fn open() -> (db: Database)
        ensures
            db.wf(),
            exists|t: (i64, i64)| valid_time(t) && db@ == #[trigger] DbView::opened(t),
    {
        let now = now_timespec();
        Database::open_at(now)
    }

    /// Records the base path.
    pub fn set_base_path(&mut self, base_path: &str) -> (r: Result<(), DbError>)
        requires
            old(self).wf(),
        ensures
            final(self).wf(),
            r is Ok,
            final(self)@ == (DbView { base_path: Some(base_path@), ..old(self)@ }),
    {
        self.base_path = Some(chars_of(base_path));
        Ok(())
    }

    /// The recorded base path.
    pub fn get_base_path(&self) -> (r: Result<String, DbError>)
        ensures
            match self@.base_path {
                Some(p) => r matches Ok(s) && s@ == p,
                None => r == Err::<String, DbError>(DbError::NoRows),
            },
    {
        match &self.base_path {
            Some(p) => Ok(string_of(p)),
            None => Err(DbError::NoRows),
        }
    }

    /// The position of the row with `path`.
    fn find(&self, path: &Vec<char>) -> (r: Option<usize>)
        requires
            self.wf(),
        ensures
            match r {
                Some(i) => i < self@.rows.len() && self@.has_path(path@) && self@.path_index(path@)
                    == i,
                None => !self@.has_path(path@),
            },
    {
        let mut i: usize = 0;
        while i < self.rows.len()
            invariant
                self.wf(),
                i <= self.rows.len(),
                forall|j: int| 0 <= j < i ==> #[trigger] self@.rows[j].path != Some(path@),
            decreases self.rows.len() - i,
        {
            let found = match &self.rows[i].path {
                Some(p) => chars_eq(p, path),
                None => false,
            };
            assert(self@.rows[i as int] == self.rows@[i as int]@);
            if found {
                proof {
                    lemma_path_index(self@, path@, i as int);
                }
                return Some(i);
            }
            i = i + 1;
        }
        proof {
            if self@.has_path(path@) {
                let j = choose|j: int| 0 <= j < self@.rows.len() && #[trigger] self@.rows[j].path == Some(path@);
                assert(self@.rows[j].path == Some(path@));
            }
        }
        None
    }

    /// Whether some row has parent `parent` and name `name`.
    fn name_in_use(&self, parent: u64, name: &Vec<char>) -> (r: bool)
        ensures
            r == self@.name_taken(parent, name@),
    {
        let mut i: usize = 0;
        while i < self.rows.len()
            invariant
                i <= self.rows.len(),
                forall|j: int|
                    0 <= j < i ==> !(#[trigger] self@.rows[j].parent_id == parent && self@.rows[j].name
                        == name@),
            decreases self.rows.len() - i,
        {
            assert(self@.rows[i as int] == self.rows@[i as int]@);
            if self.rows[i].parent_id == parent && chars_eq(&self.rows[i].name, name) {
                assert(self@.rows[i as int].parent_id == parent && self@.rows[i as int].name == name@);
                return true;
            }
            i = i + 1;
        }
        proof {
            if self@.name_taken(parent, name@) {
                let j = choose|j: int|
                    0 <= j < self@.rows.len() && #[trigger] self@.rows[j].parent_id == parent
                        && self@.rows[j].name == name@;
                assert(self@.rows[j].parent_id == parent);
            }
        }
        false
    }

    /// Whether some row has path `p`.
    pub(crate) fn has_path_at(&self, p: &Vec<char>) -> (r: bool)
        requires
            self.wf(),
        ensures
            r == self@.has_path(p@),
    {
        self.find(p).is_some()
    }

    /// Whether some row has `path`.
    pub fn exists_by_path(&self, path: &str) -> (r: bool)
        requires
            self.wf(),
        ensures
            r == self@.has_path(path@),
    {
        let p = chars_of(path);
        self.find(&p).is_some()
    }

    /// The attributes of the row with `path`.
    pub fn get_attrs_by_path(&self, path: &str) -> (r: Result<Attrs, DbError>)
        requires
            self.wf(),
        ensures
            self@.has_path(path@) ==> r == Ok::<Attrs, DbError>(attrs_of(self@.row_at(path@))),
            !self@.has_path(path@) ==> r == Err::<Attrs, DbError>(DbError::NoRows),
    {
        let p = chars_of(path);
        self.attrs_at(&p)
    }

    /// The attributes of the row with `path`.
    pub(crate) fn attrs_at(&self, p: &Vec<char>) -> (r: Result<Attrs, DbError>)
        requires
            self.wf(),
        ensures
            self@.has_path(p@) ==> r == Ok::<Attrs, DbError>(attrs_of(self@.row_at(p@))),
            !self@.has_path(p@) ==> r == Err::<Attrs, DbError>(DbError::NoRows),
    {
        match self.find(p) {
            None => Err(DbError::NoRows),
            Some(i) => {
                let r = &self.rows[i];
                assert(self@.rows[i as int] == self.rows@[i as int]@);
                Ok(
                    Attrs {
                        file_id: r.id,
                        parent_id: r.parent_id,
                        item_type: r.item_type,
                        mode: r.mode,
                        uid: r.uid,
                        gid: r.gid,
                        size: r.size,
                        link_count: r.link_count,
                        atime_sec: r.atime.0,
                        atime_nsec: r.atime.1,
                        mtime_sec: r.mtime.0,
                        mtime_nsec: r.mtime.1,
                        ctime_sec: r.ctime.0,
                        ctime_nsec: r.ctime.1,
                    },
                )
            },
        }
    }

    /// Adds a row at `p`; a symlink when `target` is given.
    pub(crate) fn create_row(
        &mut self,
        p: Vec<char>,
        item_type: ItemType,
        mode: u32,
        target: Option<Vec<char>>,
        now: (i64, i64),
    ) -> (r: Result<u64, DbError>)
        requires
            old(self).wf(),
        ensures
            final(self).wf(),
            (final(self)@, r) == old(self)@.create(p@, item_type, mode, opt_chars(target), now),
    {
        if self.find(&p).is_some() {
            return Err(DbError::ConstraintViolation);
        }
        let name = name_for(&p);
        if self.name_in_use(0, &name) {
            return Err(DbError::ConstraintViolation);
        }
        if self.next_id > 0x7fff_ffff_ffff_ffff {
            return Err(DbError::Full);
        }
        let id = self.next_id;
        let data: Option<Vec<u8>> = if item_type == ItemType::File {
            Some(Vec::new())
        } else {
            None
        };
        let ghost tv = opt_chars(target);
        let row = Row {
            id,
            parent_id: 0,
            name,
            path: Some(p),
            item_type,
            mode,
            uid: 0,
            gid: 0,
            size: 0,
            link_count: 1,
            atime: now,
            mtime: now,
            ctime: now,
            btime: now,
            symlink_target: target,
            data,
        };
        assert(row@ == new_row(id, p@, item_type, mode, tv, now)) by {
            if item_type == ItemType::File {
                assert(opt_bytes(row.data) =~= Some(Seq::<u8>::empty()));
            }
        }
        self.rows.push(row);
        self.next_id = id + 1;
        proof {
            let nr = new_row(id, p@, item_type, mode, tv, now);
            assert(self@.rows =~= old(self)@.rows.push(nr));
            assert(self@.whiteouts =~= old(self)@.whiteouts);
            let n = old(self)@.rows.len() as int;
            assert forall|i: int| 0 <= i < n implies #[trigger] self@.rows[i].path != Some(p@) by {
                assert(self@.rows[i] == old(self)@.rows[i]);
            }
            assert forall|i: int| 0 <= i < n implies !(#[trigger] self@.rows[i].parent_id == 0
                && self@.rows[i].name == name_of(p@)) by {
                assert(self@.rows[i] == old(self)@.rows[i]);
            }
        }
        Ok(id)
    }

    /// Adds an entry of type `item_type` at `path` with permissions `mode`,
    /// created at `now`; a file starts empty.
    pub fn create_by_path_at(&mut self, path: &str, item_type: ItemType, mode: u32, now: (i64, i64)) -> (r:
        Result<u64, DbError>)
        requires
            old(self).wf(),
        ensures
            final(self).wf(),
            (final(self)@, r) == old(self)@.create(path@, item_type, mode, None, now),
    {
        let p = chars_of(path);
        self.create_row(p, item_type, mode, None, now)
    }

    /// Adds an entry of type `item_type` at `path` with permissions `mode`,
    /// created now; a file starts empty. Returns the new row's id.
    pub fn create_by_path(&mut self, path: &str, item_type: ItemType, mode: u32) -> (r: Result<
        u64,
        DbError,
    >)
        requires
            old(self).wf(),
        ensures
            final(self).wf(),
            exists|t: (i64, i64)|
                valid_time(t) && (final(self)@, r) == #[trigger] old(self)@.create(
                    path@,
                    item_type,
                    mode,
                    None,
                    t,
                ),
    {
        let now = now_timespec();
        self.create_by_path_at(path, item_type, mode, now)
    }

    /// Adds a symlink at `path` pointing to `target`, with permissions 0o777,
    /// created at `now`.
    pub fn create_symlink_by_path_at(&mut self, path: &str, target: &str, now: (i64, i64)) -> (r:
        Result<u64, DbError>)
        requires
            old(self).wf(),
        ensures
            final(self).wf(),
            (final(self)@, r) == old(self)@.create(
                path@,
                ItemType::Symlink,
                511,
                Some(target@),
                now,
            ),
    {
        let p = chars_of(path);
        let t = chars_of(target);
        self.create_row(p, ItemType::Symlink, 511, Some(t), now)
    }

    /// Adds a symlink at `path` pointing to `target`, with permissions 0o777,
    /// created now. Returns the new row's id.
    pub fn create_symlink_by_path(&mut self, path: &str, target: &str) -> (r: Result<u64, DbError>)
        requires
            old(self).wf(),
        ensures
            final(self).wf(),
            exists|t: (i64, i64)|
                valid_time(t) && (final(self)@, r) == #[trigger] old(self)@.create(
                    path@,
                    ItemType::Symlink,
                    511,
                    Some(target@),
                    t,
                ),
    {
        let now = now_timespec();
        self.create_symlink_by_path_at(path, target, now)
    }

    /// Deletes the row at `p`, with its contents, if there is one.
    pub(crate) fn remove_at(&mut self, p: &Vec<char>)
        requires
            old(self).wf(),
        ensures
            final(self).wf(),
            final(self)@ == old(self)@.remove(p@),
    {
        match self.find(p) {
            None => {},
            Some(i) => {
                self.rows.remove(i);
                proof {
                    assert(self@.rows =~= old(self)@.rows.remove(i as int));
                    assert(self@.whiteouts =~= old(self)@.whiteouts);
                    let o = old(self)@.rows;
                    let nr = self@.rows;
                    assert forall|a: int| 0 <= a < nr.len() implies nr[a] == (if a < i {
                        o[a]
                    } else {
                        o[a + 1]
                    }) by {}
                }
            },
        }
    }

    /// Deletes the row at `path`, with its contents, if there is one.
    pub fn remove_by_path(&mut self, path: &str) -> (r: Result<(), DbError>)
        requires
            old(self).wf(),
        ensures
            final(self).wf(),
            r is Ok,
            final(self)@ == old(self)@.remove(path@),
    {
        let p = chars_of(path);
        self.remove_at(&p);
        Ok(())
    }

    /// Reads the contents of the file at `path` from `offset` into `buf`;
    /// returns how many bytes it placed at the start of `buf`.
    pub fn read_by_path(&self, path: &str, offset: u64, buf: &mut Vec<u8>) -> (r: Result<
        usize,
        DbError,
    >)
        requires
            self.wf(),
        ensures
            (final(buf)@, r) == self@.read(path@, offset, old(buf)@),
    {
        let p = chars_of(path);
        self.read_at(&p, offset, buf)
    }

    /// Reads the contents of the file at `p` from `offset` into `buf`.
    pub(crate) fn read_at(&self, p: &Vec<char>, offset: u64, buf: &mut Vec<u8>) -> (r: Result<
        usize,
        DbError,
    >)
        requires
            self.wf(),
        ensures
            (final(buf)@, r) == self@.read(p@, offset, old(buf)@),
    {
        let i = match self.find(p) {
            None => {
                return Err(DbError::NoRows);
            },
            Some(i) => i,
        };
        assert(self@.rows[i as int] == self.rows@[i as int]@);
        let d = match &self.rows[i].data {
            None => {
                return Err(DbError::NoRows);
            },
            Some(d) => d,
        };
        let n = read_bytes_into(d, offset, buf);
        Ok(n)
    }

    /// Writes `data` at `offset` into the file at `p`, at time `now`.
    pub(crate) fn write_at(&mut self, p: &Vec<char>, offset: u64, data: &[u8], now: (i64, i64)) -> (r:
        Result<usize, DbError>)
        requires
            old(self).wf(),
            offset + data@.len() <= usize::MAX,
        ensures
            final(self).wf(),
            (final(self)@, r) == old(self)@.write(p@, offset, data@, now),
    {
        let i = match self.find(p) {
            None => {
                return Err(DbError::NoRows);
            },
            Some(i) => i,
        };
        assert(self@.rows[i as int] == self.rows@[i as int]@);
        let off = offset as usize;
        let end = off + data.len();
        let nd = {
            let empty: Vec<u8> = Vec::new();
            let cur: &Vec<u8> = match &self.rows[i].data {
                Some(d) => d,
                None => &empty,
            };
            let ghost target = splice(cur@, off as int, data@);
            let new_size = if end > cur.len() {
                end
            } else {
                cur.len()
            };
            let mut nd: Vec<u8> = Vec::new();
            let mut k: usize = 0;
            while k < new_size
                invariant
                    k <= new_size,
                    new_size == target.len(),
                    target == splice(cur@, off as int, data@),
                    off + data@.len() == end,
                    nd@ == target.take(k as int),
                decreases new_size - k,
            {
                let b = if off <= k && k < end {
                    data[k - off]
                } else if k < cur.len() {
                    cur[k]
                } else {
                    0u8
                };
                nd.push(b);
                k = k + 1;
                assert(nd@ =~= target.take(k as int));
            }
            assert(nd@ =~= target);
            nd
        };
        let new_size = nd.len();
        let has_data = self.rows[i].data.is_some();
        self.rows[i].size = new_size as u64;
        self.rows[i].mtime = now;
        if has_data {
            self.rows[i].data = Some(nd);
        }
        proof {
            let o = old(self)@;
            let r = o.row_at(p@);
            let cur = match r.data {
                Some(d) => d,
                None => Seq::empty(),
            };
            let nds = splice(cur, offset as int, data@);
            let r2 = RowView {
                size: nds.len() as u64,
                mtime: now,
                data: if r.data is Some {
                    Some(nds)
                } else {
                    None
                },
                ..r
            };
            assert(self@.rows =~= o.rows.update(i as int, r2));
            assert(self@.whiteouts =~= o.whiteouts);
            assert forall|a: int| 0 <= a < self@.rows.len() && a != i implies #[trigger] self@.rows[a]
                == o.rows[a] by {}
        }
        Ok(data.len())
    }

    /// Writes `data` at `offset` into the file at `path`, at time `now`;
    /// returns how many bytes were written.
    pub fn write_by_path_at(&mut self, path: &str, offset: u64, data: &[u8], now: (i64, i64)) -> (r:
        Result<usize, DbError>)
        requires
            old(self).wf(),
            offset + data@.len() <= usize::MAX,
        ensures
            final(self).wf(),
            (final(self)@, r) == old(self)@.write(path@, offset, data@, now),
    {
        let p = chars_of(path);
        self.write_at(&p, offset, data, now)
    }

    /// Writes `data` at `offset` into the file at `path`, now; returns how many
    /// bytes were written.
    pub fn write_by_path(&mut self, path: &str, offset: u64, data: &[u8]) -> (r: Result<
        usize,
        DbError,
    >)
        requires
            old(self).wf(),
            offset + data@.len() <= usize::MAX,
        ensures
            final(self).wf(),
            exists|t: (i64, i64)|
                valid_time(t) && (final(self)@, r) == #[trigger] old(self)@.write(
                    path@,
                    offset,
                    data@,
                    t,
                ),
    {
        let now = now_timespec();
        self.write_by_path_at(path, offset, data, now)
    }

    /// The symlink target stored at `p`.
    pub(crate) fn symlink_at(&self, p: &Vec<char>) -> (r: Result<Vec<char>, DbError>)
        requires
            self.wf(),
        ensures
            !self@.has_path(p@) ==> r == Err::<Vec<char>, DbError>(DbError::NoRows),
            self@.has_path(p@) ==> match self@.row_at(p@).symlink_target {
                Some(t) => r matches Ok(v) && v@ == t,
                None => r == Err::<Vec<char>, DbError>(DbError::NullColumn),
            },
    {
        match self.find(p) {
            None => Err(DbError::NoRows),
            Some(i) => {
                assert(self@.rows[i as int] == self.rows@[i as int]@);
                match &self.rows[i].symlink_target {
                    Some(t) => Ok(copy_chars(t)),
                    None => Err(DbError::NullColumn),
                }
            },
        }
    }

    /// The target of the symlink at `path`.
    pub fn read_symlink_by_path(&self, path: &str) -> (r: Result<String, DbError>)
        requires
            self.wf(),
        ensures
            !self@.has_path(path@) ==> r == Err::<String, DbError>(DbError::NoRows),
            self@.has_path(path@) ==> match self@.row_at(path@).symlink_target {
                Some(t) => r matches Ok(s) && s@ == t,
                None => r == Err::<String, DbError>(DbError::NullColumn),
            },
    {
        let p = chars_of(path);
        match self.symlink_at(&p) {
            Ok(t) => Ok(string_of(&t)),
            Err(e) => Err(e),
        }
    }

    /// The position of `p` among the whiteouts.
    fn whiteout_index(&self, p: &Vec<char>) -> (r: Option<usize>)
        ensures
            match r {
                Some(i) => i < self@.whiteouts.len() && self@.whiteouts[i as int] == p@,
                None => !self@.whiteouts.contains(p@),
            },
    {
        let mut i: usize = 0;
        while i < self.whiteouts.len()
            invariant
                i <= self.whiteouts.len(),
                forall|j: int| 0 <= j < i ==> #[trigger] self@.whiteouts[j] != p@,
            decreases self.whiteouts.len() - i,
        {
            assert(self@.whiteouts[i as int] == self.whiteouts@[i as int]@);
            if chars_eq(&self.whiteouts[i], p) {
                return Some(i);
            }
            i = i + 1;
        }
        None
    }

    /// Adds `p` to the whiteouts.
    pub(crate) fn add_whiteout_at(&mut self, p: &Vec<char>)
        requires
            old(self).wf(),
        ensures
            final(self).wf(),
            final(self)@ == old(self)@.add_whiteout(p@),
    {
        if self.whiteout_index(p).is_none() {
            self.whiteouts.push(copy_chars(p));
            proof {
                assert(self@.whiteouts =~= old(self)@.whiteouts.push(p@));
                assert(self@.rows =~= old(self)@.rows);
            }
        }
    }

    /// Adds `path` to the whiteouts.
    pub fn add_whiteout(&mut self, path: &str) -> (r: Result<(), DbError>)
        requires
            old(self).wf(),
        ensures
            final(self).wf(),
            r is Ok,
            final(self)@ == old(self)@.add_whiteout(path@),
    {
        let p = chars_of(path);
        self.add_whiteout_at(&p);
        Ok(())
    }

    /// Takes `p` out of the whiteouts.
    pub(crate) fn remove_whiteout_at(&mut self, p: &Vec<char>)
        requires
            old(self).wf(),
        ensures
            final(self).wf(),
            final(self)@ == old(self)@.remove_whiteout(p@),
    {
        match self.whiteout_index(p) {
            None => {},
            Some(i) => {
                self.whiteouts.remove(i);
                proof {
                    let o = old(self)@.whiteouts;
                    o.index_of_first_ensures(p@);
                    assert(o.index_of(p@) == i) by {
                        o.unique_seq_to_set();
                        if o.index_of(p@) != i as int {
                            assert(o[o.index_of(p@)] == o[i as int]);
                        }
                    }
                    assert(self@.whiteouts =~= o.remove(i as int));
                    assert(self@.rows =~= old(self)@.rows);
                }
            },
        }
    }

    /// Takes `path` out of the whiteouts.
    pub fn remove_whiteout(&mut self, path: &str) -> (r: Result<(), DbError>)
        requires
            old(self).wf(),
        ensures
            final(self).wf(),
            r is Ok,
            final(self)@ == old(self)@.remove_whiteout(path@),
    {
        let p = chars_of(path);
        self.remove_whiteout_at(&p);
        Ok(())
    }

    /// Whether `p` is a whiteout.
    pub(crate) fn is_whiteout_at(&self, p: &Vec<char>) -> (r: bool)
        ensures
            r == self@.is_whiteout(p@),
    {
        self.whiteout_index(p).is_some()
    }

    /// Whether `path` is a whiteout.
    pub fn is_whiteout(&self, path: &str) -> (r: bool)
        ensures
            r == self@.is_whiteout(path@),
    {
        let p = chars_of(path);
        self.is_whiteout_at(&p)
    }

    /// The entries directly inside `parent_path` (`"/"` lists the top level), in
    /// table order; each entry carries the row's id, name and type.
    pub fn list_children_by_parent_path(&self, parent_path: &str) -> (r: Result<
        Vec<DirEntry>,
        DbError,
    >)
        ensures
            r matches Ok(v) && entries_view(v@) == self@.children(parent_path@),
    {
        let dir = chars_of(parent_path);
        let mut out: Vec<DirEntry> = Vec::new();
        let mut i: usize = 0;
        while i < self.rows.len()
            invariant
                i <= self.rows.len(),
                dir@ == parent_path@,
                entries_view(out@) == children_in(self@.rows.take(i as int), dir@),
            decreases self.rows.len() - i,
        {
            let ghost pre = out@;
            assert(self@.rows[i as int] == self.rows@[i as int]@);
            assert(self@.rows.take(i + 1).drop_last() =~= self@.rows.take(i as int));
            let r = &self.rows[i];
            match &r.path {
                Some(p) => {
                    if child_of(p, &dir).is_some() {
                        let e = DirEntry { inode_id: r.id, name: string_of(&r.name), item_type: r.item_type };
                        out.push(e);
                        assert(entries_view(out@) =~= entries_view(pre).push(entry_view(e)));
                    }
                },
                None => {},
            }
            i = i + 1;
        }
        assert(self@.rows.take(self.rows.len() as int) =~= self@.rows);
        Ok(out)
    }

    /// The names (relative to `dir`) and types of the rows directly inside
    /// `dir`, in table order.
    pub(crate) fn child_names(&self, dir: &Vec<char>) -> (r: Vec<(Vec<char>, ItemType)>)
        ensures
            cands_view(r@) == upper_cands(self@.rows, dir@),
    {
        let mut out: Vec<(Vec<char>, ItemType)> = Vec::new();
        let mut i: usize = 0;
        while i < self.rows.len()
            invariant
                i <= self.rows.len(),
                cands_view(out@) == upper_cands(self@.rows.take(i as int), dir@),
            decreases self.rows.len() - i,
        {
            let ghost pre = out@;
            assert(self@.rows[i as int] == self.rows@[i as int]@);
            assert(self@.rows.take(i + 1).drop_last() =~= self@.rows.take(i as int));
            match &self.rows[i].path {
                Some(p) => {
                    match child_of(p, dir) {
                        Some(n) => {
                            let e = (n, self.rows[i].item_type);
                            out.push(e);
                            assert(cands_view(out@) =~= cands_view(pre).push((e.0@, e.1)));
                        },
                        None => {},
                    }
                },
                None => {},
            }
            i = i + 1;
        }
        assert(self@.rows.take(self.rows.len() as int) =~= self@.rows);
        out
    }

    /// Every row's path and type, for rows that have a path, in table order.
    pub fn all_paths(&self) -> (r: Vec<(String, ItemType)>)
        ensures
            typed_paths_view(r@) == self@.all_paths(),
    {
        let mut out: Vec<(String, ItemType)> = Vec::new();
        let mut i: usize = 0;
        while i < self.rows.len()
            invariant
                i <= self.rows.len(),
                typed_paths_view(out@) == paths_in(self@.rows.take(i as int)),
            decreases self.rows.len() - i,
        {
            let ghost pre = out@;
            assert(self@.rows[i as int] == self.rows@[i as int]@);
            assert(self@.rows.take(i + 1).drop_last() =~= self@.rows.take(i as int));
            match &self.rows[i].path {
                Some(p) => {
                    let e = (string_of(p), self.rows[i].item_type);
                    out.push(e);
                    assert(typed_paths_view(out@) =~= typed_paths_view(pre).push((e.0@, e.1)));
                },
                None => {},
            }
            i = i + 1;
        }
        assert(self@.rows.take(self.rows.len() as int) =~= self@.rows);
        out
    }

    /// The whiteout paths, in the order they were added.
    pub fn all_whiteouts(&self) -> (r: Vec<String>)
        ensures
            strings_view(r@) == self@.whiteouts,
    {
        let mut out: Vec<String> = Vec::new();
        let mut i: usize = 0;
        while i < self.whiteouts.len()
            invariant
                i <= self.whiteouts.len(),
                strings_view(out@) == self@.whiteouts.take(i as int),
            decreases self.whiteouts.len() - i,
        {
            assert(self@.whiteouts[i as int] == self.whiteouts@[i as int]@);
            let w = string_of(&self.whiteouts[i]);
            let ghost pre = out@;
            out.push(w);
            assert(strings_view(out@) =~= strings_view(pre).push(w@));
            assert(strings_view(out@) =~= self@.whiteouts.take(i + 1));
            i = i + 1;
        }
        assert(self@.whiteouts.take(self.whiteouts.len() as int) =~= self@.whiteouts);
        out
    }

    /// The contents of the file at `p`.
    pub(crate) fn data_at(&self, p: &Vec<char>) -> (r: Result<Vec<u8>, DbError>)
        requires
            self.wf(),
        ensures
            self@.has_path(p@) && self@.row_at(p@).data is Some ==> (r matches Ok(d) && d@
                == self@.row_at(p@).data.unwrap()),
            !(self@.has_path(p@) && self@.row_at(p@).data is Some) ==> r == Err::<Vec<u8>, DbError>(
                DbError::NoRows,
            ),
    {
        match self.find(p) {
            None => Err(DbError::NoRows),
            Some(i) => {
                assert(self@.rows[i as int] == self.rows@[i as int]@);
                match &self.rows[i].data {
                    Some(d) => {
                        let mut out: Vec<u8> = Vec::new();
                        let mut k: usize = 0;
                        while k < d.len()
                            invariant
                                k <= d.len(),
                                out@ == d@.take(k as int),
                            decreases d.len() - k,
                        {
                            out.push(d[k]);
                            k = k + 1;
                            assert(out@ =~= d@.take(k as int));
                        }
                        assert(out@ =~= d@);
                        Ok(out)
                    },
                    None => Err(DbError::NoRows),
                }
            },
        }
    }

    /// The contents of the file at `path`.
    pub fn read_file_data(&self, path: &str) -> (r: Result<Vec<u8>, DbError>)
        requires
            self.wf(),
        ensures
            self@.has_path(path@) && self@.row_at(path@).data is Some ==> (r matches Ok(d) && d@
                == self@.row_at(path@).data.unwrap()),
            !(self@.has_path(path@) && self@.row_at(path@).data is Some) ==> r == Err::<
                Vec<u8>,
                DbError,
            >(DbError::NoRows),
    {
        let p = chars_of(path);
        self.data_at(&p)
    }

    /// Cuts or zero-extends the file at `p` to `size` bytes, at time `now`.
    pub(crate) fn truncate_at(&mut self, p: &Vec<char>, size: u64, now: (i64, i64)) -> (r: Result<(), DbError>)
        requires
            old(self).wf(),
            size <= usize::MAX,
        ensures
            final(self).wf(),
            (final(self)@, r) == old(self)@.truncate(p@, size, now),
    {
        let i = match self.find(p) {
            None => {
                return Err(DbError::NoRows);
            },
            Some(i) => i,
        };
        assert(self@.rows[i as int] == self.rows@[i as int]@);
        let sz = size as usize;
        let nd = {
            let empty: Vec<u8> = Vec::new();
            let cur: &Vec<u8> = match &self.rows[i].data {
                Some(d) => d,
                None => &empty,
            };
            let ghost target = resized(cur@, sz as int);
            let mut nd: Vec<u8> = Vec::new();
            let mut k: usize = 0;
            while k < sz
                invariant
                    k <= sz,
                    target == resized(cur@, sz as int),
                    nd@ == target.take(k as int),
                decreases sz - k,
            {
                let b = if k < cur.len() {
                    cur[k]
                } else {
                    0u8
                };
                nd.push(b);
                k = k + 1;
                assert(nd@ =~= target.take(k as int));
            }
            assert(nd@ =~= target);
            nd
        };
        let has_data = self.rows[i].data.is_some();
        self.rows[i].size = size;
        self.rows[i].mtime = now;
        if has_data {
            self.rows[i].data = Some(nd);
        }
        proof {
            let o = old(self)@;
            let r = o.row_at(p@);
            let cur = match r.data {
                Some(d) => d,
                None => Seq::empty(),
            };
            let r2 = RowView {
                size,
                mtime: now,
                data: if r.data is Some {
                    Some(resized(cur, size as int))
                } else {
                    None
                },
                ..r
            };
            assert(self@.rows =~= o.rows.update(i as int, r2));
            assert(self@.whiteouts =~= o.whiteouts);
            assert forall|a: int| 0 <= a < self@.rows.len() && a != i implies #[trigger] self@.rows[a]
                == o.rows[a] by {}
        }
        Ok(())
    }

    /// Cuts or zero-extends the file at `path` to `size` bytes, at time `now`.
    pub fn truncate_by_path_at(&mut self, path: &str, size: u64, now: (i64, i64)) -> (r: Result<
        (),
        DbError,
    >)
        requires
            old(self).wf(),
            size <= usize::MAX,
        ensures
            final(self).wf(),
            (final(self)@, r) == old(self)@.truncate(path@, size, now),
    {
        let p = chars_of(path);
        self.truncate_at(&p, size, now)
    }

    /// Cuts or zero-extends the file at `path` to `size` bytes, now.
    pub fn truncate_by_path(&mut self, path: &str, size: u64) -> (r: Result<(), DbError>)
        requires
            old(self).wf(),
            size <= usize::MAX,
        ensures
            final(self).wf(),
            exists|t: (i64, i64)|
                valid_time(t) && (final(self)@, r) == #[trigger] old(self)@.truncate(path@, size, t),
    {
        let now = now_timespec();
        self.truncate_by_path_at(path, size, now)
    }

    /// Sets the access and modification times of the row at `p`; a missing
    /// component takes its value from `now`.
    pub(crate) fn update_times_at(
        &mut self,
        p: &Vec<char>,
        atime_sec: Option<i64>,
        atime_nsec: Option<i64>,
        mtime_sec: Option<i64>,
        mtime_nsec: Option<i64>,
        now: (i64, i64),
    )
        requires
            old(self).wf(),
        ensures
            final(self).wf(),
            final(self)@ == old(self)@.update_times(
                p@,
                atime_sec,
                atime_nsec,
                mtime_sec,
                mtime_nsec,
                now,
            ),
    {
        match self.find(p) {
            None => {},
            Some(i) => {
                assert(self@.rows[i as int] == self.rows@[i as int]@);
                let a = (
                    match atime_sec {
                        Some(s) => s,
                        None => now.0,
                    },
                    match atime_nsec {
                        Some(s) => s,
                        None => now.1,
                    },
                );
                let m = (
                    match mtime_sec {
                        Some(s) => s,
                        None => now.0,
                    },
                    match mtime_nsec {
                        Some(s) => s,
                        None => now.1,
                    },
                );
                self.rows[i].atime = a;
                self.rows[i].mtime = m;
                proof {
                    let o = old(self)@;
                    let r = o.row_at(p@);
                    assert(self@.rows =~= o.rows.update(i as int, RowView { atime: a, mtime: m, ..r }));
                    assert(self@.whiteouts =~= o.whiteouts);
                    assert forall|x: int| 0 <= x < self@.rows.len() && x != i implies #[trigger] self@.rows[x]
                        == o.rows[x] by {}
                }
            },
        }
    }

    /// Sets the access and modification times of the row at `path`; a missing
    /// component takes its value from `now`.
    pub fn update_times_by_path_at(
        &mut self,
        path: &str,
        atime_sec: Option<i64>,
        atime_nsec: Option<i64>,
        mtime_sec: Option<i64>,
        mtime_nsec: Option<i64>,
        now: (i64, i64),
    ) -> (r: Result<(), DbError>)
        requires
            old(self).wf(),
        ensures
            final(self).wf(),
            r is Ok,
            final(self)@ == old(self)@.update_times(
                path@,
                atime_sec,
                atime_nsec,
                mtime_sec,
                mtime_nsec,
                now,
            ),
    {
        let p = chars_of(path);
        self.update_times_at(&p, atime_sec, atime_nsec, mtime_sec, mtime_nsec, now);
        Ok(())
    }

    /// Sets the access and modification times of the row at `path`; a missing
    /// component takes its value from the current time.
    pub fn update_times_by_path(
        &mut self,
        path: &str,
        atime_sec: Option<i64>,
        atime_nsec: Option<i64>,
        mtime_sec: Option<i64>,
        mtime_nsec: Option<i64>,
    ) -> (r: Result<(), DbError>)
        requires
            old(self).wf(),
        ensures
            final(self).wf(),
            r is Ok,
            exists|t: (i64, i64)|
                valid_time(t) && final(self)@ == #[trigger] old(self)@.update_times(
                    path@,
                    atime_sec,
                    atime_nsec,
                    mtime_sec,
                    mtime_nsec,
                    t,
                ),
    {
        let now = now_timespec();
        self.update_times_by_path_at(path, atime_sec, atime_nsec, mtime_sec, mtime_nsec, now)
    }

    /// Sets the mode of the row at `p`, with change time `now`.
    pub(crate) fn update_mode_at(&mut self, p: &Vec<char>, mode: u32, now: (i64, i64))
        requires
            old(self).wf(),
        ensures
            final(self).wf(),
            final(self)@ == old(self)@.update_mode(p@, mode, now),
    {
        match self.find(p) {
            None => {},
            Some(i) => {
                assert(self@.rows[i as int] == self.rows@[i as int]@);
                self.rows[i].mode = mode;
                self.rows[i].ctime = now;
                proof {
                    let o = old(self)@;
                    let r = o.row_at(p@);
                    assert(self@.rows =~= o.rows.update(i as int, RowView { mode, ctime: now, ..r }));
                    assert(self@.whiteouts =~= o.whiteouts);
                    assert forall|x: int| 0 <= x < self@.rows.len() && x != i implies #[trigger] self@.rows[x]
                        == o.rows[x] by {}
                }
            },
        }
    }

    /// Sets the mode of the row at `path`, with change time `now`.
    pub fn update_mode_by_path_at(&mut self, path: &str, mode: u32, now: (i64, i64)) -> (r: Result<
        (),
        DbError,
    >)
        requires
            old(self).wf(),
        ensures
            final(self).wf(),
            r is Ok,
            final(self)@ == old(self)@.update_mode(path@, mode, now),
    {
        let p = chars_of(path);
        self.update_mode_at(&p, mode, now);
        Ok(())
    }

    /// Sets the mode of the row at `path`, with the current time as change time.
    pub fn update_mode_by_path(&mut self, path: &str, mode: u32) -> (r: Result<(), DbError>)
        requires
            old(self).wf(),
        ensures
            final(self).wf(),
            r is Ok,
            exists|t: (i64, i64)|
                valid_time(t) && final(self)@ == #[trigger] old(self)@.update_mode(path@, mode, t),
    {
        let now = now_timespec();
        self.update_mode_by_path_at(path, mode, now)
    }

    /// Whether no two of `paths` are the same path; `paths` holds the path of
    /// each row of `rows`.
    fn distinct_paths(paths: &Vec<Option<Vec<char>>>, Ghost(rows): Ghost<Seq<RowView>>) -> (r: bool)
        requires
            paths@.len() == rows.len(),
            forall|k: int| 0 <= k < rows.len() ==> #[trigger] rows[k].path == opt_chars(paths@[k]),
        ensures
            r == paths_unique(rows),
    {
        let n = paths.len();
        let mut a: usize = 0;
        while a < n
            invariant
                n == paths@.len() == rows.len(),
                a <= n,
                forall|k: int| 0 <= k < rows.len() ==> #[trigger] rows[k].path == opt_chars(paths@[k]),
                forall|x: int, y: int|
                    #![trigger rows[x], rows[y]]
                    0 <= x < a && 0 <= y < n && x != y && rows[x].path is Some ==> rows[x].path
                        != rows[y].path,
            decreases n - a,
        {
            match &paths[a] {
                None => {
                    assert(rows[a as int].path is None);
                },
                Some(pa) => {
                    let mut b: usize = 0;
                    while b < n
                        invariant
                            n == paths@.len() == rows.len(),
                            a < n,
                            b <= n,
                            paths@[a as int] == Some(*pa),
                            forall|k: int| 0 <= k < rows.len() ==> #[trigger] rows[k].path == opt_chars(paths@[k]),
                            forall|y: int|
                                0 <= y < b && a != y ==> rows[a as int].path != #[trigger] rows[y].path,
                        decreases n - b,
                    {
                        if b != a {
                            match &paths[b] {
                                Some(pb) => {
                                    if chars_eq(pa, pb) {
                                        assert(rows[a as int].path == rows[b as int].path);
                                        assert(!paths_unique(rows));
                                        return false;
                                    }
                                },
                                None => {},
                            }
                            assert(rows[a as int].path != rows[b as int].path);
                        }
                        b = b + 1;
                    }
                },
            }
            a = a + 1;
        }
        true
    }

    /// `p` moved below `new` from below `old` (`p` starts with `old + "/"`).
    fn moved(p: &Vec<char>, from: &Vec<char>, to: &Vec<char>) -> (r: Vec<char>)
        requires
            is_below(p@, from@),
        ensures
            r@ == moved_path(p@, from@, to@),
    {
        let mut new_pre = copy_chars(to);
        new_pre.push('/');
        assert(from@.push('/').len() <= p@.len());
        assert(from.len() + 1 <= p.len());
        let rest = suffix_from(p, from.len() + 1);
        concat(&new_pre, &rest)
    }

    /// Moves the row at `old` to `new`, at time `now`; for a directory, the
    /// rows below it move along.
    #[verifier::loop_isolation(false)]
    pub(crate) fn rename_at(&mut self, from: &Vec<char>, to: &Vec<char>, now: (i64, i64)) -> (r: Result<
        (),
        DbError,
    >)
        requires
            old(self).wf(),
        ensures
            final(self).wf(),
            (final(self)@, r) == old(self)@.rename(from@, to@, now),
    {
        let ghost o = self@;
        let i = match self.find(from) {
            None => {
                return Err(DbError::NoRows);
            },
            Some(i) => i,
        };
        assert(self@.rows[i as int] == self.rows@[i as int]@);
        let ghost rows1 = if o.rows[i as int].item_type == ItemType::Directory {
            moved_rows(o.rows, from@, to@)
        } else {
            o.rows
        };
        let mut old_pre = copy_chars(from);
        old_pre.push('/');
        if self.rows[i].item_type == ItemType::Directory {
            let n = self.rows.len();
            let mut paths: Vec<Option<Vec<char>>> = Vec::new();
            let mut k: usize = 0;
            while k < n
                invariant
                    n == self.rows.len() == o.rows.len() == rows1.len(),
                    self@ == o,
                    old_pre@ == from@.push('/'),
                    k <= n,
                    paths@.len() == k,
                    rows1 == moved_rows(o.rows, from@, to@),
                    forall|m: int| 0 <= m < k ==> #[trigger] rows1[m].path == opt_chars(paths@[m]),
                decreases n - k,
            {
                assert(self@.rows[k as int] == self.rows@[k as int]@);
                let np = match &self.rows[k].path {
                    Some(p) => {
                        if starts_with(p, &old_pre) {
                            Some(Self::moved(p, from, to))
                        } else {
                            Some(copy_chars(p))
                        }
                    },
                    None => None,
                };
                paths.push(np);
                k = k + 1;
            }
            if !Self::distinct_paths(&paths, Ghost(rows1)) {
                return Err(DbError::ConstraintViolation);
            }
            let mut k: usize = 0;
            while k < n
                invariant
                    n == self.rows.len() == o.rows.len() == rows1.len(),
                    old_pre@ == from@.push('/'),
                    k <= n,
                    self@.whiteouts == o.whiteouts,
                    self@.base_path == o.base_path,
                    self@.next_id == o.next_id,
                    rows1 == moved_rows(o.rows, from@, to@),
                    forall|m: int| 0 <= m < k ==> #[trigger] self@.rows[m] == rows1[m],
                    forall|m: int| k <= m < n ==> #[trigger] self@.rows[m] == o.rows[m],
                decreases n - k,
            {
                assert(self@.rows[k as int] == self.rows@[k as int]@);
                let np = match &self.rows[k].path {
                    Some(p) => {
                        if starts_with(p, &old_pre) {
                            Some(Self::moved(p, from, to))
                        } else {
                            None
                        }
                    },
                    None => None,
                };
                let ghost pre = self@.rows;
                match np {
                    Some(q) => {
                        self.rows[k].path = Some(q);
                    },
                    None => {},
                }
                assert(self@.rows =~= pre.update(k as int, rows1[k as int]));
                k = k + 1;
            }
            assert(self@.rows =~= rows1);
        } else {
            assert(rows1 == o.rows);
            assert(paths_unique(rows1));
        }
        assert(self@.rows == rows1);
        assert(self@ == (DbView { rows: rows1, ..o }));
        assert forall|k: int| 0 <= k < rows1.len() implies #[trigger] rows1[k].id == o.rows[k].id
            && rows1[k].name == o.rows[k].name && rows1[k].parent_id == o.rows[k].parent_id by {}
        assert(self.wf());
        let nm = name_for(to);
        let parent = self.rows[i].parent_id;
        assert(rows1[i as int].parent_id == parent) by {
            assert(self@.rows[i as int] == self.rows@[i as int]@);
        }
        let mut j: usize = 0;
        while j < self.rows.len()
            invariant
                self@ == (DbView { rows: rows1, ..o }),
                self.wf(),
                i < rows1.len(),
                rows1[i as int].parent_id == parent,
                nm@ == name_of(to@),
                j <= self.rows.len(),
                forall|x: int| 0 <= x < j && x != i ==> #[trigger] rows1[x].path != Some(to@),
                forall|x: int| 0 <= x < j && x != i ==> !(#[trigger] rows1[x].parent_id == parent && rows1[x].name == nm@),
            decreases self.rows.len() - j,
        {
            assert(self@.rows[j as int] == self.rows@[j as int]@);
            if j != i {
                let same_path = match &self.rows[j].path {
                    Some(p) => chars_eq(p, to),
                    None => false,
                };
                if same_path {
                    assert(rows1[j as int].path == Some(to@));
                    assert(path_taken_except(rows1, i as int, to@));
                    return Err(DbError::ConstraintViolation);
                }
                if self.rows[j].parent_id == parent && chars_eq(&self.rows[j].name, &nm) {
                    assert(rows1[j as int].parent_id == rows1[i as int].parent_id && rows1[j as int].name == nm@);
                    assert(name_taken_except(rows1, i as int, nm@));
                    return Err(DbError::ConstraintViolation);
                }
            }
            j = j + 1;
        }
        let ghost pre = self@.rows;
        self.rows[i].path = Some(copy_chars(to));
        self.rows[i].name = nm;
        self.rows[i].ctime = now;
        proof {
            assert(self@.rows =~= rows1.update(
                i as int,
                RowView { path: Some(to@), name: name_of(to@), ctime: now, ..rows1[i as int] },
            ));
        }
        Ok(())
    }

    /// Moves the entry at `old_path` to `new_path`, at time `now`; for a
    /// directory, the entries below it move along.
    pub fn rename_by_path_at(&mut self, old_path: &str, new_path: &str, now: (i64, i64)) -> (r: Result<
        (),
        DbError,
    >)
        requires
            old(self).wf(),
        ensures
            final(self).wf(),
            (final(self)@, r) == old(self)@.rename(old_path@, new_path@, now),
    {
        let o = chars_of(old_path);
        let n = chars_of(new_path);
        self.rename_at(&o, &n, now)
    }

    /// Moves the entry at `old_path` to `new_path`, now; for a directory, the
    /// entries below it move along.
    pub fn rename_by_path(&mut self, old_path: &str, new_path: &str) -> (r: Result<(), DbError>)
        requires
            old(self).wf(),
        ensures
            final(self).wf(),
            exists|t: (i64, i64)|
                valid_time(t) && (final(self)@, r) == #[trigger] old(self)@.rename(
                    old_path@,
                    new_path@,
                    t,
                ),
    {
        let now = now_timespec();
        self.rename_by_path_at(old_path, new_path, now)
    }
}

} // verus!

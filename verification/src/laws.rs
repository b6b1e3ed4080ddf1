//! What holds across operations of the upper layer and of the overlay.
use vstd::prelude::*;
use crate::base::{base_cands, BaseEntryView, BaseView};
use crate::db::{
    is_below, lemma_create_ok, read_into, lemma_row_at_index, lemma_with_row, moved_path, paths_unique, resized,
    splice, upper_cands, DbError, DbView, ItemType, RowView,
};
use crate::overlay::{
    reads_as_file,
    copy_file, copy_up, lemma_remap_distinct, listed, remap_entry, remap_in, remap_path, OverlayError,
    OverlayView,
};
use crate::changes::{chars_le, lemma_chars_le_antisym, sorted_lines};
use crate::nfs::{
    create_mode, nfs_create, nfs_create_exclusive, nfs_lookup, nfs_read, nfs_setattr, nfs_write, utf8_name,
    AttrChange, NfsStatus, NfsTime, TimeChange,
};
use crate::text::{child_name, child_prefix, is_child, join_path, name_of};

verus! {

/// Reading back what was written: after writing `data` at `offset` into the
/// file at `p`, reading `data.len()` bytes at `offset` gives `data`.
pub proof fn law_db_read_after_write(
    v: DbView,
    p: Seq<char>,
    offset: u64,
    data: Seq<u8>,
    now: (i64, i64),
    buf: Seq<u8>,
)
    requires
        v.wf(),
        v.has_path(p),
        v.row_at(p).item_type == ItemType::File,
        buf.len() == data.len(),
    ensures
        v.write(p, offset, data, now).1 == Ok::<usize, DbError>(data.len() as usize),
        v.write(p, offset, data, now).0.read(p, offset, buf) == (data, Ok::<usize, DbError>(
            data.len() as usize,
        )),
{
    let r = v.row_at(p);
    let i = v.path_index(p);
    assert(v.rows[i].item_type == ItemType::File);
    assert(r.data is Some);
    let cur = r.data.unwrap();
    let nd = splice(cur, offset as int, data);
    let r2 = RowView { size: nd.len() as u64, mtime: now, data: Some(nd), ..r };
    lemma_with_row(v, p, r2);
    let w = v.with_row(p, r2);
    assert(v.write(p, offset, data, now).0 == w);
    assert(w.row_at(p).data == Some(nd));
    if data.len() == 0 {
        assert(data =~= buf);
        assert(buf.skip(0) =~= buf);
        assert(nd.subrange(offset as int, offset as int) =~= Seq::<u8>::empty());
    } else {
        assert(nd.subrange(offset as int, offset + data.len()) =~= data);
        assert(buf.skip(data.len() as int) =~= Seq::<u8>::empty());
        assert(data + Seq::<u8>::empty() =~= data);
    }
}

/// Cutting a file to a size: afterwards the row has that size, and a file's
/// contents are its old contents cut or zero-extended to it.
pub proof fn law_db_truncate(v: DbView, p: Seq<char>, size: u64, now: (i64, i64))
    requires
        v.wf(),
        v.has_path(p),
    ensures
        v.truncate(p, size, now).1 is Ok,
        v.truncate(p, size, now).0.has_path(p),
        v.truncate(p, size, now).0.row_at(p).size == size,
        v.row_at(p).data matches Some(d) ==> v.truncate(p, size, now).0.row_at(p).data == Some(
            resized(d, size as int),
        ),
{
    let r = v.row_at(p);
    let i = v.path_index(p);
    assert(v.rows[i].item_type == ItemType::File <==> v.rows[i].data is Some);
    let cur = match r.data {
        Some(d) => d,
        None => Seq::empty(),
    };
    let r2 = RowView {
        size,
        mtime: now,
        data: if r.data is Some {
            Some(resized(cur, size as int))
        } else {
            None
        },
        ..r
    };
    lemma_with_row(v, p, r2);
}

/// A whiteout, once added, is there; once removed, it is gone.
pub proof fn law_db_whiteouts(v: DbView, p: Seq<char>)
    requires
        v.wf(),
    ensures
        v.add_whiteout(p).is_whiteout(p),
        !v.remove_whiteout(p).is_whiteout(p),
{
    if v.whiteouts.contains(p) {
        let w = v.whiteouts;
        let k = w.index_of(p);
        w.index_of_first_ensures(p);
        let nw = w.remove(k);
        if nw.contains(p) {
            let j = choose|j: int| 0 <= j < nw.len() && nw[j] == p;
            if j < k {
                assert(w[j] == p && w[k] == p);
            } else {
                assert(w[j + 1] == p && w[k] == p);
            }
        }
    } else {
        assert(v.whiteouts.push(p)[v.whiteouts.len() as int] == p);
    }
}

/// A rename keeps the row: after moving `old` to `new`, the row at `new` has
/// the id, type and contents that the row at `old` had.
pub proof fn law_db_rename_keeps_row(v: DbView, old: Seq<char>, new: Seq<char>, now: (i64, i64))
    requires
        v.wf(),
        v.rename(old, new, now).1 is Ok,
    ensures
        v.rename(old, new, now).0.has_path(new),
        v.rename(old, new, now).0.row_at(new).id == v.row_at(old).id,
        v.rename(old, new, now).0.row_at(new).item_type == v.row_at(old).item_type,
        v.rename(old, new, now).0.row_at(new).data == v.row_at(old).data,
{
    let i = v.path_index(old);
    let rows1 = if v.rows[i].item_type == ItemType::Directory {
        crate::db::moved_rows(v.rows, old, new)
    } else {
        v.rows
    };
    let w = v.rename(old, new, now).0;
    assert(paths_unique(rows1));
    assert(rows1[i].id == v.rows[i].id && rows1[i].item_type == v.rows[i].item_type && rows1[i].data
        == v.rows[i].data);
    assert(!crate::db::path_taken_except(rows1, i, new));
    assert(w.rows[i].path == Some(new));
    assert(paths_unique(w.rows)) by {
        assert forall|a: int, b: int|
            #![trigger w.rows[a], w.rows[b]]
            0 <= a < w.rows.len() && 0 <= b < w.rows.len() && a != b && w.rows[a].path is Some
            implies w.rows[a].path != w.rows[b].path by {
            if a != i && b != i {
                assert(rows1[a].path != rows1[b].path);
            } else if a == i {
                assert(!(rows1[b].path == Some(new)));
            } else {
                assert(!(rows1[a].path == Some(new)));
            }
        }
    }
    lemma_row_at_index(w, new, i);
}

/// Reading back what was written through the overlay: after writing `data`
/// at `offset` through `ino` to an entry that is not whited out and is (or
/// becomes by the copy) a regular file of the upper layer, reading
/// `data.len()` bytes at `offset` through `ino` gives `data`.
pub proof fn law_read_after_write(
    v: OverlayView,
    ino: u64,
    offset: u64,
    data: Seq<u8>,
    b: BaseView,
    now: (i64, i64),
    buf: Seq<u8>,
)
    requires
        v.wf(),
        b.wf(),
        v.knows(ino),
        !v.db.is_whiteout(v.path_of(ino)),
        v.db.has_path(v.path_of(ino)) ==> v.db.row_at(v.path_of(ino)).item_type == ItemType::File,
        v.write(ino, offset, data, b, now).1 is Ok,
        buf.len() == data.len(),
    ensures
        v.write(ino, offset, data, b, now).0.read(ino, offset, buf, b) == (data, Ok::<
            usize,
            OverlayError,
        >(data.len() as usize)),
{
    let p = v.path_of(ino);
    let db1 = if v.db.has_path(p) {
        v.db
    } else {
        copy_up(v.db, p, b, now).0
    };
    if !v.db.has_path(p) {
        lemma_copy_up_ok(v.db, p, b, now);
    }
    assert(db1.wf() && db1.has_path(p) && db1.row_at(p).item_type == ItemType::File);
    assert(db1.whiteouts == v.db.whiteouts);
    law_db_read_after_write(db1, p, offset, data, now, buf);
    let w = v.write(ino, offset, data, b, now).0;
    assert(w == v.with_db(db1.write(p, offset, data, now).0));
    let r = db1.row_at(p);
    let nd = splice(r.data.unwrap(), offset as int, data);
    let r2 = RowView { size: nd.len() as u64, mtime: now, data: Some(nd), ..r };
    lemma_with_row(db1, p, r2);
    assert(db1.rows[db1.path_index(p)].item_type == ItemType::File);
}

/// A successful copy-up leaves a valid table with a regular file at `p` and
/// the same whiteouts.
pub proof fn lemma_copy_up_ok(db: DbView, p: Seq<char>, b: BaseView, now: (i64, i64))
    requires
        db.wf(),
        !db.has_path(p),
        copy_up(db, p, b, now).1 is Ok,
    ensures
        copy_up(db, p, b, now).0.wf(),
        copy_up(db, p, b, now).0.has_path(p),
        copy_up(db, p, b, now).0.row_at(p).item_type == ItemType::File,
        copy_up(db, p, b, now).0.whiteouts == db.whiteouts,
{
    lemma_create_ok(db, p, ItemType::File, 420, None, now);
    let d1 = db.create(p, ItemType::File, 420, None, now).0;
    if b.has(p) && reads_as_file(b.get(p)) {
        law_db_read_after_write(d1, p, 0, b.get(p).content, now, b.get(p).content);
        let r = d1.row_at(p);
        let cur = r.data.unwrap();
        let nd = splice(cur, 0, b.get(p).content);
        let r2 = RowView { size: nd.len() as u64, mtime: now, data: Some(nd), ..r };
        lemma_with_row(d1, p, r2);
        assert(copy_up(db, p, b, now) == copy_file(db, p, 420, b.get(p).content, now));
    }
}

/// A created entry can be looked up: after creating `name` in `parent`,
/// looking `name` up in `parent` gives the created entry's inode number.
pub proof fn law_create_then_lookup(
    v: OverlayView,
    parent: u64,
    name: Seq<char>,
    item_type: ItemType,
    mode: u32,
    target: Option<Seq<char>>,
    b: BaseView,
    now: (i64, i64),
)
    requires
        v.wf(),
        v.create(parent, name, item_type, mode, target, now).1 is Ok,
    ensures
        v.create(parent, name, item_type, mode, target, now).0.lookup(parent, name, b) == (
            v.create(parent, name, item_type, mode, target, now).0,
            v.create(parent, name, item_type, mode, target, now).1,
        ),
{
    let cp = join_path(v.path_of(parent), name);
    let db1 = v.db.remove_whiteout(cp);
    lemma_remove_whiteout_wf(v.db, cp);
    law_db_whiteouts(v.db, cp);
    lemma_create_ok(db1, cp, item_type, mode, target, now);
    let db2 = db1.create(cp, item_type, mode, target, now).0;
    let v2 = v.with_db(db2);
    let w = v.create(parent, name, item_type, mode, target, now).0;
    assert(w == v2.assign(cp).0);
    lemma_assign(v2, cp);
    lemma_knows_kept(v2, cp, parent);
}

/// Removing a whiteout keeps the table valid.
pub proof fn lemma_remove_whiteout_wf(v: DbView, p: Seq<char>)
    requires
        v.wf(),
    ensures
        v.remove_whiteout(p).wf(),
        v.remove_whiteout(p).rows == v.rows,
{
    if v.whiteouts.contains(p) {
        let w = v.whiteouts;
        let k = w.index_of(p);
        w.index_of_first_ensures(p);
        let nw = w.remove(k);
        assert forall|a: int, c: int| 0 <= a < nw.len() && 0 <= c < nw.len() && a != c implies nw[a]
            != nw[c] by {
            let a0 = if a < k {
                a
            } else {
                a + 1
            };
            let c0 = if c < k {
                c
            } else {
                c + 1
            };
            assert(nw[a] == w[a0] && nw[c] == w[c0]);
        }
    }
}

/// Adding a whiteout keeps the table valid.
pub proof fn lemma_add_whiteout_wf(v: DbView, p: Seq<char>)
    requires
        v.wf(),
    ensures
        v.add_whiteout(p).wf(),
        v.add_whiteout(p).rows == v.rows,
{
    if !v.whiteouts.contains(p) {
        let nw = v.whiteouts.push(p);
        assert forall|a: int, c: int| 0 <= a < nw.len() && 0 <= c < nw.len() && a != c implies nw[a]
            != nw[c] by {
            if a < v.whiteouts.len() && c < v.whiteouts.len() {
            } else if a < v.whiteouts.len() {
                assert(v.whiteouts[a] != p);
            } else {
                assert(v.whiteouts[c] != p);
            }
        }
    }
}

/// After an inode number is assigned to `p`, `p` is registered with the
/// assigned number, registrations already made stay, and the state stays
/// valid.
pub proof fn lemma_assign(v: OverlayView, p: Seq<char>)
    requires
        v.wf(),
        v.assign(p).1 is Some,
    ensures
        v.assign(p).0.wf(),
        v.assign(p).0.registered(p),
        v.assign(p).0.ino_of(p) == v.assign(p).1.unwrap(),
        v.assign(p).0.db == v.db,
        forall|ino: u64| #[trigger] v.knows(ino) ==> v.assign(p).0.knows(ino) && v.assign(p).0.path_of(ino) == v.path_of(ino),
        forall|q: Seq<char>| #[trigger] v.registered(q) ==> v.assign(p).0.registered(q) && v.assign(p).0.ino_of(q) == v.ino_of(q),
{
    let w = v.assign(p).0;
    if v.registered(p) {
        let i = choose|i: int| 0 <= i < v.inodes.len() && #[trigger] v.inodes[i].1 == p;
        lemma_registered_index(v, p, i);
    } else {
        let n = v.inodes.len() as int;
        assert forall|i: int| 0 <= i < n implies #[trigger] v.inodes[i].1 != p by {}
        assert forall|a: int, c: int|
            #![trigger w.inodes[a], w.inodes[c]]
            0 <= a < w.inodes.len() && 0 <= c < w.inodes.len() && a != c implies w.inodes[a].0
                != w.inodes[c].0 && w.inodes[a].1 != w.inodes[c].1 by {
            if a < n && c < n {
                assert(v.inodes[a].0 != v.inodes[c].0);
            } else if a < n {
                assert(v.inodes[a].0 < v.next_inode);
            } else {
                assert(v.inodes[c].0 < v.next_inode);
            }
        }
        assert(w.wf());
        lemma_registered_index(w, p, n);
    }
    assert forall|ino: u64| #[trigger] v.knows(ino) implies w.knows(ino) && w.path_of(ino) == v.path_of(ino) by {
        let i = choose|i: int| 0 <= i < v.inodes.len() && #[trigger] v.inodes[i].0 == ino;
        lemma_known_index(v, ino, i);
        assert(w.inodes[i] == v.inodes[i]);
        lemma_known_index(w, ino, i);
    }
    assert forall|q: Seq<char>| #[trigger] v.registered(q) implies w.registered(q) && w.ino_of(q) == v.ino_of(q) by {
        let i = choose|i: int| 0 <= i < v.inodes.len() && #[trigger] v.inodes[i].1 == q;
        lemma_registered_index(v, q, i);
        assert(w.inodes[i] == v.inodes[i]);
        lemma_registered_index(w, q, i);
    }
}

/// In a valid state, the registration at position `i` is the one of its
/// inode number.
pub proof fn lemma_known_index(v: OverlayView, ino: u64, i: int)
    requires
        v.wf(),
        0 <= i < v.inodes.len(),
        v.inodes[i].0 == ino,
    ensures
        v.knows(ino),
        v.path_of(ino) == v.inodes[i].1,
{
    let j = choose|j: int| 0 <= j < v.inodes.len() && #[trigger] v.inodes[j].0 == ino;
    assert(v.inodes[j].0 == ino);
    if j != i {
        assert(v.inodes[i].0 != v.inodes[j].0);
    }
}

/// In a valid state, the registration at position `i` is the one of its path.
pub proof fn lemma_registered_index(v: OverlayView, p: Seq<char>, i: int)
    requires
        v.wf(),
        0 <= i < v.inodes.len(),
        v.inodes[i].1 == p,
    ensures
        v.registered(p),
        v.ino_of(p) == v.inodes[i].0,
{
    let j = choose|j: int| 0 <= j < v.inodes.len() && #[trigger] v.inodes[j].1 == p;
    assert(v.inodes[j].1 == p);
    if j != i {
        assert(v.inodes[i].1 != v.inodes[j].1);
    }
}

/// Assigning an inode number to `p` keeps what `ino` stands for.
pub proof fn lemma_knows_kept(v: OverlayView, p: Seq<char>, ino: u64)
    requires
        v.wf(),
        v.knows(ino),
        v.assign(p).1 is Some,
    ensures
        v.assign(p).0.knows(ino),
        v.assign(p).0.path_of(ino) == v.path_of(ino),
{
    lemma_assign(v, p);
}

/// Removing hides: after removing the entry reached through `ino`, looking
/// up its name in its directory fails.
pub proof fn law_remove_hides(v: OverlayView, ino: u64, parent: u64, name: Seq<char>, b: BaseView)
    requires
        v.wf(),
        b.wf(),
        v.knows(ino),
        v.knows(parent),
        join_path(v.path_of(parent), name) == v.path_of(ino),
    ensures
        v.remove(ino, b).1 is Ok,
        v.remove(ino, b).0.lookup(parent, name, b).1 is Err,
{
    let p = v.path_of(ino);
    let db1 = v.db.remove(p);
    if v.db.has_path(p) {
        let i = v.db.path_index(p);
        assert forall|j: int| 0 <= j < db1.rows.len() implies #[trigger] db1.rows[j].path != Some(p) by {
            let j0 = if j < i {
                j
            } else {
                j + 1
            };
            assert(db1.rows[j] == v.db.rows[j0]);
            assert(j0 != i);
            assert(v.db.rows[j0].path != v.db.rows[i].path);
        }
    }
    assert(!db1.has_path(p));
    if b.has(p) {
        law_db_whiteouts(db1, p);
    }
}

/// Looking up and listing attributes leave the upper layer as it was, and
/// reading changes no state at all.
pub proof fn law_lookup_keeps_upper_layer(v: OverlayView, parent: u64, name: Seq<char>, b: BaseView)
    ensures
        v.lookup(parent, name, b).0.db == v.db,
        v.lookup(parent, name, b).0.base_path == v.base_path,
{
}

/// A change of times alone never copies a base entry up: when the upper
/// layer lacks the path, it stays as it was.
pub proof fn law_times_only_no_copy_up(
    v: OverlayView,
    ino: u64,
    atime: Option<(i64, i64)>,
    mtime: Option<(i64, i64)>,
    b: BaseView,
    now: (i64, i64),
)
    requires
        v.knows(ino),
        !v.db.has_path(v.path_of(ino)),
    ensures
        v.setattr(ino, None, None, atime, mtime, b, now) == (v, Ok::<(), OverlayError>(())),
{
    assert(v.with_db(v.db) == v);
}

/// Setting the size: afterwards the entry reached through `ino` (when not
/// whited out) reports that size.
pub proof fn law_setattr_size(v: OverlayView, ino: u64, size: u64, b: BaseView, now: (i64, i64))
    requires
        v.wf(),
        b.wf(),
        v.knows(ino),
        !v.db.is_whiteout(v.path_of(ino)),
        v.setattr(ino, None, Some(size), None, None, b, now).1 is Ok,
    ensures
        v.setattr(ino, None, Some(size), None, None, b, now).0.getattr(ino, b) matches Ok(a) && a.size
            == size,
{
    let p = v.path_of(ino);
    let db1 = if v.db.has_path(p) {
        v.db
    } else {
        copy_up(v.db, p, b, now).0
    };
    if !v.db.has_path(p) {
        lemma_copy_up_ok(v.db, p, b, now);
    }
    assert(db1.wf() && db1.has_path(p) && db1.whiteouts == v.db.whiteouts);
    law_db_truncate(db1, p, size, now);
    let r = db1.row_at(p);
    let i = db1.path_index(p);
    assert(db1.rows[i].item_type == ItemType::File <==> db1.rows[i].data is Some);
    let cur = match r.data {
        Some(d) => d,
        None => Seq::empty(),
    };
    let nd = if r.data is Some {
        Some(resized(cur, size as int))
    } else {
        None
    };
    let r2 = RowView { size, mtime: now, data: nd, ..r };
    lemma_with_row(db1, p, r2);
}

/// The path of a child is its directory's child prefix followed by its name.
pub proof fn lemma_join_child(p: Seq<char>, d: Seq<char>)
    requires
        is_child(p, d),
    ensures
        join_path(d, child_name(p, d)) == p,
{
    let cp = child_prefix(d);
    assert(p =~= p.subrange(0, cp.len() as int) + p.skip(cp.len() as int));
}

/// Every name that the upper layer offers for a listing of `d` is the name
/// of a row directly inside `d`.
pub proof fn lemma_upper_cands(rows: Seq<RowView>, d: Seq<char>, k: int)
    requires
        0 <= k < upper_cands(rows, d).len(),
    ensures
        exists|i: int|
            0 <= i < rows.len() && #[trigger] rows[i].path == Some(join_path(d, upper_cands(rows, d)[k].0)),
    decreases rows.len(),
{
    let rest = upper_cands(rows.drop_last(), d);
    let r = rows.last();
    if k < rest.len() {
        lemma_upper_cands(rows.drop_last(), d, k);
        let i = choose|i: int|
            0 <= i < rows.drop_last().len() && #[trigger] rows.drop_last()[i].path == Some(
                join_path(d, rest[k].0),
            );
        assert(rows[i] == rows.drop_last()[i]);
        assert(upper_cands(rows, d)[k] == rest[k]);
    } else {
        let p = r.path.unwrap();
        lemma_join_child(p, d);
        assert(rows[rows.len() - 1].path == Some(join_path(d, upper_cands(rows, d)[k].0)));
    }
}

/// Every name that the base offers for a listing of `d` is the name of a base
/// entry directly inside `d`.
pub proof fn lemma_base_cands(es: Seq<BaseEntryView>, d: Seq<char>, k: int)
    requires
        0 <= k < base_cands(es, d).len(),
    ensures
        exists|i: int| 0 <= i < es.len() && #[trigger] es[i].path == join_path(d, base_cands(es, d)[k].0),
    decreases es.len(),
{
    let rest = base_cands(es.drop_last(), d);
    if k < rest.len() {
        lemma_base_cands(es.drop_last(), d, k);
        let i = choose|i: int|
            0 <= i < es.drop_last().len() && #[trigger] es.drop_last()[i].path == join_path(d, rest[k].0);
        assert(es[i] == es.drop_last()[i]);
        assert(base_cands(es, d)[k] == rest[k]);
    } else {
        lemma_join_child(es.last().path, d);
        assert(es[es.len() - 1].path == join_path(d, base_cands(es, d)[k].0));
    }
}

/// Each name of a listing of `d` is a path that the upper layer or the base
/// has.
pub proof fn lemma_listing_present(v: OverlayView, d: Seq<char>, b: BaseView, k: int)
    requires
        0 <= k < v.listing(d, b).len(),
    ensures
        v.db.has_path(join_path(d, v.listing(d, b)[k].0)) || b.has(join_path(d, v.listing(d, b)[k].0)),
{
    let u = upper_cands(v.db.rows, d);
    if k < u.len() {
        lemma_upper_cands(v.db.rows, d, k);
        assert(v.listing(d, b)[k] == u[k]);
    } else {
        lemma_base_cands(b.entries, d, k - u.len());
        assert(v.listing(d, b)[k] == base_cands(b.entries, d)[k - u.len()]);
    }
}

/// What a listing fold gives: a valid state with the same upper layer, in
/// which every listed name is registered with its listed inode number, is not
/// whited out and is present in a layer; names are listed once; and (unless
/// inode numbers ran out) every candidate that is not whited out is listed.
pub proof fn lemma_fold(v: OverlayView, d: Seq<char>, cands: Seq<(Seq<char>, ItemType)>, b: BaseView)
    requires
        v.wf(),
        forall|k: int|
            0 <= k < cands.len() ==> v.db.has_path(join_path(d, (#[trigger] cands[k]).0)) || b.has(
                join_path(d, cands[k].0),
            ),
    ensures
        ({
            let (w, out, ok) = v.readdir_fold(d, cands);
            &&& w.wf()
            &&& w.db == v.db
            &&& forall|ino: u64| #[trigger] v.knows(ino) ==> w.knows(ino) && w.path_of(ino) == v.path_of(ino)
            &&& forall|k: int|
                0 <= k < out.len() ==> w.registered(join_path(d, (#[trigger] out[k]).1)) && w.ino_of(
                    join_path(d, out[k].1),
                ) == out[k].0 && !v.db.is_whiteout(join_path(d, out[k].1)) && (v.db.has_path(
                    join_path(d, out[k].1),
                ) || b.has(join_path(d, out[k].1)))
            &&& forall|a: int, c: int|
                #![trigger out[a], out[c]]
                0 <= a < out.len() && 0 <= c < out.len() && a != c ==> out[a].1 != out[c].1
            &&& ok ==> forall|k: int|
                0 <= k < cands.len() && !v.db.is_whiteout(join_path(d, (#[trigger] cands[k]).0))
                    ==> listed(out, cands[k].0)
        }),
    decreases cands.len(),
{
    if cands.len() > 0 {
        let pre = cands.drop_last();
        assert forall|k: int| 0 <= k < pre.len() implies v.db.has_path(join_path(d, (#[trigger] pre[k]).0))
            || b.has(join_path(d, pre[k].0)) by {
            assert(pre[k] == cands[k]);
        }
        lemma_fold(v, d, pre, b);
        let (v1, out1, ok1) = v.readdir_fold(d, pre);
        let last = cands.last();
        let cp = join_path(d, last.0);
        assert(cands[cands.len() - 1] == last);
        if ok1 && !(v1.db.is_whiteout(cp) || listed(out1, last.0)) {
            let (v2, o) = v1.assign(cp);
            if o is Some {
                lemma_assign(v1, cp);
                let out2 = out1.push((o.unwrap(), last.0, last.1));
                assert forall|k: int| 0 <= k < out2.len() implies v2.registered(
                    join_path(d, (#[trigger] out2[k]).1),
                ) && v2.ino_of(join_path(d, out2[k].1)) == out2[k].0 && !v.db.is_whiteout(
                    join_path(d, out2[k].1),
                ) && (v.db.has_path(join_path(d, out2[k].1)) || b.has(join_path(d, out2[k].1))) by {
                    if k < out1.len() {
                        assert(out2[k] == out1[k]);
                        assert(v1.registered(join_path(d, out1[k].1)));
                    }
                }
                assert forall|a: int, c: int|
                    #![trigger out2[a], out2[c]]
                    0 <= a < out2.len() && 0 <= c < out2.len() && a != c implies out2[a].1 != out2[c].1 by {
                    if a < out1.len() && c < out1.len() {
                        assert(out2[a] == out1[a] && out2[c] == out1[c]);
                    } else if a < out1.len() {
                        assert(out2[a] == out1[a]);
                        if out1[a].1 == last.0 {
                            assert(listed(out1, last.0));
                        }
                    } else {
                        assert(out2[c] == out1[c]);
                        if out1[c].1 == last.0 {
                            assert(listed(out1, last.0));
                        }
                    }
                }
                assert forall|k: int|
                    0 <= k < cands.len() && !v.db.is_whiteout(join_path(d, (#[trigger] cands[k]).0))
                    implies listed(out2, cands[k].0) by {
                    if k < pre.len() {
                        assert(pre[k] == cands[k]);
                        let m = choose|m: int| 0 <= m < out1.len() && (#[trigger] out1[m]).1 == cands[k].0;
                        assert(out2[m] == out1[m]);
                    } else {
                        assert(out2[out1.len() as int].1 == last.0);
                    }
                }
            }
        } else if ok1 {
            assert forall|k: int|
                0 <= k < cands.len() && !v.db.is_whiteout(join_path(d, (#[trigger] cands[k]).0))
                implies listed(out1, cands[k].0) by {
                if k < pre.len() {
                    assert(pre[k] == cands[k]);
                }
            }
        }
    }
}

/// A listing and lookups agree: a successful listing of `dir` holds each name
/// once, namely each name that either layer has directly inside the directory
/// and that is not whited out; and looking a listed name up in `dir`
/// afterwards gives its listed inode number.
pub proof fn law_readdir_lookup_agree(v: OverlayView, dir: u64, b: BaseView)
    requires
        v.wf(),
        b.wf(),
        v.readdir(dir, b).1 is Ok,
    ensures
        ({
            let (w, r) = v.readdir(dir, b);
            let es = r.unwrap();
            let d = v.path_of(dir);
            &&& forall|k: int|
                0 <= k < es.len() ==> w.lookup(dir, (#[trigger] es[k]).1, b) == (w, Ok::<
                    u64,
                    OverlayError,
                >(es[k].0))
            &&& forall|a: int, c: int|
                #![trigger es[a], es[c]]
                0 <= a < es.len() && 0 <= c < es.len() && a != c ==> es[a].1 != es[c].1
            &&& forall|k: int|
                0 <= k < v.listing(d, b).len() && !v.db.is_whiteout(
                    join_path(d, (#[trigger] v.listing(d, b)[k]).0),
                ) ==> listed(es, v.listing(d, b)[k].0)
        }),
{
    let d = v.path_of(dir);
    let cands = v.listing(d, b);
    assert forall|k: int| 0 <= k < cands.len() implies v.db.has_path(join_path(d, (#[trigger] cands[k]).0))
        || b.has(join_path(d, cands[k].0)) by {
        lemma_listing_present(v, d, b, k);
    }
    lemma_fold(v, d, cands, b);
    let (w, out, ok) = v.readdir_fold(d, cands);
    assert forall|k: int| 0 <= k < out.len() implies w.lookup(dir, (#[trigger] out[k]).1, b) == (w, Ok::<
        u64,
        OverlayError,
    >(out[k].0)) by {
        assert(w.registered(join_path(d, out[k].1)));
    }
}

/// Every registration after a move comes from a registration before it, and
/// every registration that survives the move is there.
pub proof fn lemma_remap_members(s: Seq<(u64, Seq<char>)>, old: Seq<char>, new: Seq<char>)
    ensures
        forall|k: int|
            0 <= k < remap_in(s, old, new).len() ==> exists|i: int|
                0 <= i < s.len() && remap_entry(s[i], old, new) == Some(
                    #[trigger] remap_in(s, old, new)[k],
                ),
        forall|i: int|
            0 <= i < s.len() && (#[trigger] remap_entry(s[i], old, new)) is Some ==> remap_in(
                s,
                old,
                new,
            ).contains(remap_entry(s[i], old, new).unwrap()),
    decreases s.len(),
{
    if s.len() > 0 {
        let pre = s.drop_last();
        lemma_remap_members(pre, old, new);
        let r = remap_in(s, old, new);
        let rp = remap_in(pre, old, new);
        assert forall|k: int| 0 <= k < r.len() implies exists|i: int|
            0 <= i < s.len() && remap_entry(s[i], old, new) == Some(#[trigger] r[k]) by {
            if k < rp.len() {
                assert(r[k] == rp[k]);
                let i = choose|i: int| 0 <= i < pre.len() && remap_entry(pre[i], old, new) == Some(#[trigger] rp[k]);
                assert(s[i] == pre[i]);
            } else {
                assert(remap_entry(s[s.len() - 1], old, new) == Some(r[k]));
            }
        }
        assert forall|i: int|
            0 <= i < s.len() && (#[trigger] remap_entry(s[i], old, new)) is Some implies r.contains(
                remap_entry(s[i], old, new).unwrap(),
            ) by {
            if i < pre.len() {
                assert(s[i] == pre[i]);
                let e = remap_entry(pre[i], old, new).unwrap();
                assert(rp.contains(e));
                let k = choose|k: int| 0 <= k < rp.len() && rp[k] == e;
                assert(r[k] == rp[k]);
            } else {
                assert(r[r.len() - 1] == remap_entry(s[i], old, new).unwrap());
            }
        }
    }
}

/// Registrations stay one per inode number and one per path, and below the
/// next number, across a move.
pub proof fn lemma_remap_distinct_all(s: Seq<(u64, Seq<char>)>, old: Seq<char>, new: Seq<char>, next: u64)
    requires
        forall|i: int, j: int|
            #![trigger s[i], s[j]]
            0 <= i < s.len() && 0 <= j < s.len() && i != j ==> s[i].0 != s[j].0 && s[i].1 != s[j].1,
        forall|i: int| 0 <= i < s.len() ==> #[trigger] s[i].0 < next,
    ensures
        ({
            let r = remap_in(s, old, new);
            &&& forall|a: int, c: int|
                #![trigger r[a], r[c]]
                0 <= a < r.len() && 0 <= c < r.len() && a != c ==> r[a].0 != r[c].0 && r[a].1 != r[c].1
            &&& forall|a: int| 0 <= a < r.len() ==> #[trigger] r[a].0 < next
        }),
    decreases s.len(),
{
    if s.len() > 0 {
        let pre = s.drop_last();
        assert forall|i: int, j: int|
            #![trigger pre[i], pre[j]]
            0 <= i < pre.len() && 0 <= j < pre.len() && i != j implies pre[i].0 != pre[j].0 && pre[i].1
                != pre[j].1 by {
            assert(s[i] == pre[i] && s[j] == pre[j]);
        }
        assert forall|i: int| 0 <= i < pre.len() implies #[trigger] pre[i].0 < next by {
            assert(s[i] == pre[i]);
        }
        lemma_remap_distinct_all(pre, old, new, next);
        lemma_remap_members(pre, old, new);
        lemma_remap_members(s, old, new);
        let r = remap_in(s, old, new);
        let rp = remap_in(pre, old, new);
        let last = s.last();
        assert(s[s.len() - 1] == last);
        if remap_entry(last, old, new) is Some {
            let e = remap_entry(last, old, new).unwrap();
            assert forall|a: int| 0 <= a < rp.len() implies rp[a].0 != e.0 && rp[a].1 != e.1 by {
                let i = choose|i: int| 0 <= i < pre.len() && remap_entry(pre[i], old, new) == Some(#[trigger] rp[a]);
                assert(s[i] == pre[i]);
                assert(s[i].0 != last.0 && s[i].1 != last.1);
                lemma_remap_distinct(pre[i].1, last.1, old, new);
            }
            assert forall|a: int, c: int|
                #![trigger r[a], r[c]]
                0 <= a < r.len() && 0 <= c < r.len() && a != c implies r[a].0 != r[c].0 && r[a].1 != r[c].1 by {
                if a < rp.len() && c < rp.len() {
                    assert(r[a] == rp[a] && r[c] == rp[c]);
                } else if a < rp.len() {
                    assert(r[a] == rp[a] && r[c] == e);
                } else {
                    assert(r[c] == rp[c] && r[a] == e);
                }
            }
        }
        assert forall|a: int| 0 <= a < r.len() implies #[trigger] r[a].0 < next by {
            let i = choose|i: int| 0 <= i < s.len() && remap_entry(s[i], old, new) == Some(#[trigger] r[a]);
        }
    }
}

/// After a move, an inode number whose registered path survives keeps its
/// (moved) path, and no other inode number is known.
pub proof fn lemma_remap_lookup(v: OverlayView, old: Seq<char>, new: Seq<char>, w: OverlayView, ino: u64)
    requires
        v.wf(),
        w.wf(),
        w.inodes == remap_in(v.inodes, old, new),
    ensures
        w.knows(ino) ==> v.knows(ino) && remap_path(v.path_of(ino), old, new) == Some(w.path_of(ino)),
        v.knows(ino) && remap_path(v.path_of(ino), old, new) is Some ==> w.knows(ino) && Some(
            w.path_of(ino),
        ) == remap_path(v.path_of(ino), old, new),
{
    lemma_remap_members(v.inodes, old, new);
    if w.knows(ino) {
        let k = choose|k: int| 0 <= k < w.inodes.len() && #[trigger] w.inodes[k].0 == ino;
        lemma_known_index(w, ino, k);
        let i = choose|i: int|
            0 <= i < v.inodes.len() && remap_entry(v.inodes[i], old, new) == Some(#[trigger] w.inodes[k]);
        lemma_known_index(v, ino, i);
    }
    if v.knows(ino) && remap_path(v.path_of(ino), old, new) is Some {
        let i = choose|i: int| 0 <= i < v.inodes.len() && #[trigger] v.inodes[i].0 == ino;
        lemma_known_index(v, ino, i);
        let e = remap_entry(v.inodes[i], old, new).unwrap();
        assert(w.inodes.contains(e));
        let k = choose|k: int| 0 <= k < w.inodes.len() && w.inodes[k] == e;
        lemma_known_index(w, ino, k);
    }
}

/// Deleting the row at `p` leaves a valid table without `p` whose other rows
/// and whiteouts are unchanged.
#[verifier::spinoff_prover]
pub proof fn lemma_remove_ok(v: DbView, p: Seq<char>)
    requires
        v.wf(),
    ensures
        v.remove(p).wf(),
        !v.remove(p).has_path(p),
        v.remove(p).whiteouts == v.whiteouts,
        forall|q: Seq<char>|
            q != p ==> (#[trigger] v.remove(p).has_path(q) == v.has_path(q) && (v.has_path(q)
                ==> v.remove(p).row_at(q) == v.row_at(q))),
{
    if v.has_path(p) {
        let i = v.path_index(p);
        let w = v.remove(p);
        assert(v.rows[i].path == Some(p));
        assert forall|j: int| 0 <= j < w.rows.len() implies #[trigger] w.rows[j] == v.rows[if j < i {
            j
        } else {
            j + 1
        }] by {}
        assert forall|a: int, c: int|
            #![trigger w.rows[a], w.rows[c]]
            0 <= a < w.rows.len() && 0 <= c < w.rows.len() && a != c implies w.rows[a].id
                != w.rows[c].id && !(w.rows[a].parent_id == w.rows[c].parent_id && w.rows[a].name
                == w.rows[c].name) && (w.rows[a].path is Some ==> w.rows[a].path != w.rows[c].path) by {
            let a0 = if a < i {
                a
            } else {
                a + 1
            };
            let c0 = if c < i {
                c
            } else {
                c + 1
            };
            assert(w.rows[a] == v.rows[a0] && w.rows[c] == v.rows[c0]);
            assert(v.rows[a0].id != v.rows[c0].id);
            assert(!(v.rows[a0].parent_id == v.rows[c0].parent_id && v.rows[a0].name == v.rows[c0].name));
            if v.rows[a0].path is Some {
                assert(v.rows[a0].path != v.rows[c0].path);
            }
        }
        assert forall|a: int| 0 <= a < w.rows.len() implies #[trigger] w.rows[a].id < w.next_id && (
        w.rows[a].item_type == ItemType::File <==> w.rows[a].data is Some) by {
            let a0 = if a < i {
                a
            } else {
                a + 1
            };
            assert(w.rows[a] == v.rows[a0]);
            assert(v.rows[a0].id < v.next_id);
            assert(v.rows[a0].item_type == ItemType::File <==> v.rows[a0].data is Some);
        }
        assert(w.wf());
        assert forall|j: int| 0 <= j < w.rows.len() implies #[trigger] w.rows[j].path != Some(p) by {
            let j0 = if j < i {
                j
            } else {
                j + 1
            };
            assert(j0 != i);
            assert(v.rows[j0].path != v.rows[i].path);
        }
        assert forall|q: Seq<char>| q != p implies #[trigger] w.has_path(q) == v.has_path(q) && (v.has_path(q)
            ==> w.row_at(q) == v.row_at(q)) by {
            if v.has_path(q) {
                let j = v.path_index(q);
                lemma_row_at_index(v, q, j);
                assert(j != i);
                let j1 = if j < i {
                    j
                } else {
                    j - 1
                };
                assert(w.rows[j1] == v.rows[j]);
                lemma_row_at_index(w, q, j1);
            }
            if w.has_path(q) {
                let j = w.path_index(q);
                assert(w.rows[j].path == Some(q));
                let j0 = if j < i {
                    j
                } else {
                    j + 1
                };
                assert(w.rows[j] == v.rows[j0]);
                assert(v.rows[j0].path == Some(q));
                assert(v.has_path(q));
            }
        }
    }
}

/// A successful rename leaves a valid table, with the same whiteouts, in
/// which the moved row is at `new` and, unless `old` lies below `new`, no row
/// is at `old` any more.
pub proof fn lemma_rename_ok(v: DbView, old: Seq<char>, new: Seq<char>, now: (i64, i64))
    requires
        v.wf(),
        v.rename(old, new, now).1 is Ok,
    ensures
        v.rename(old, new, now).0.wf(),
        v.rename(old, new, now).0.whiteouts == v.whiteouts,
        v.rename(old, new, now).0.has_path(new),
        v.rename(old, new, now).0.row_at(new).id == v.row_at(old).id,
        v.rename(old, new, now).0.row_at(new).item_type == v.row_at(old).item_type,
        v.rename(old, new, now).0.row_at(new).data == v.row_at(old).data,
        old != new && !is_below(old, new) ==> !v.rename(old, new, now).0.has_path(old),
{
    let i = v.path_index(old);
    let rows1 = if v.rows[i].item_type == ItemType::Directory {
        crate::db::moved_rows(v.rows, old, new)
    } else {
        v.rows
    };
    let w = v.rename(old, new, now).0;
    let nm = name_of(new);
    assert(v.rows[i].path == Some(old));
    assert(paths_unique(rows1));
    assert(!crate::db::path_taken_except(rows1, i, new));
    assert(!crate::db::name_taken_except(rows1, i, nm));
    assert forall|k: int| 0 <= k < rows1.len() implies #[trigger] rows1[k].id == v.rows[k].id
        && rows1[k].name == v.rows[k].name && rows1[k].parent_id == v.rows[k].parent_id
        && rows1[k].item_type == v.rows[k].item_type && rows1[k].data == v.rows[k].data by {}
    assert(w.rows == rows1.update(i, RowView { path: Some(new), name: nm, ctime: now, ..rows1[i] }));
    assert forall|a: int, c: int|
        #![trigger w.rows[a], w.rows[c]]
        0 <= a < w.rows.len() && 0 <= c < w.rows.len() && a != c implies w.rows[a].id != w.rows[c].id
            && !(w.rows[a].parent_id == w.rows[c].parent_id && w.rows[a].name == w.rows[c].name) && (
        w.rows[a].path is Some ==> w.rows[a].path != w.rows[c].path) by {
        assert(v.rows[a].id != v.rows[c].id);
        if a != i && c != i {
            assert(!(v.rows[a].parent_id == v.rows[c].parent_id && v.rows[a].name == v.rows[c].name));
            if rows1[a].path is Some {
                assert(rows1[a].path != rows1[c].path);
            }
        } else if a == i {
            assert(!(rows1[c].path == Some(new)));
            assert(!(rows1[c].parent_id == rows1[i].parent_id && rows1[c].name == nm));
        } else {
            assert(!(rows1[a].path == Some(new)));
            assert(!(rows1[a].parent_id == rows1[i].parent_id && rows1[a].name == nm));
        }
    }
    assert forall|a: int| 0 <= a < w.rows.len() implies #[trigger] w.rows[a].id < w.next_id && (
    w.rows[a].item_type == ItemType::File <==> w.rows[a].data is Some) by {
        assert(v.rows[a].id < v.next_id);
        assert(v.rows[a].item_type == ItemType::File <==> v.rows[a].data is Some);
    }
    assert(w.wf());
    lemma_row_at_index(w, new, i);
    lemma_row_at_index(v, old, i);
    if old != new && !is_below(old, new) {
        assert forall|j: int| 0 <= j < w.rows.len() implies #[trigger] w.rows[j].path != Some(old) by {
            if j != i {
                assert(v.rows[j].path != v.rows[i].path);
                if v.rows[i].item_type == ItemType::Directory {
                    match v.rows[j].path {
                        Some(p) => {
                            if is_below(p, old) {
                                lemma_moved_below_new(p, old, new);
                            }
                        },
                        None => {},
                    }
                }
            }
        }
    }
}

/// A path moved from below `old` lies below `new`.
pub proof fn lemma_moved_below_new(p: Seq<char>, old: Seq<char>, new: Seq<char>)
    requires
        is_below(p, old),
    ensures
        is_below(moved_path(p, old, new), new),
{
    let m = moved_path(p, old, new);
    assert(m.subrange(0, new.len() + 1int) =~= new.push('/'));
}

/// Moving an upper entry: afterwards looking up the new name succeeds, with
/// the inode number that the old name had when it had one, and looking up the
/// old name fails. Stated for non-empty names and a move that neither puts
/// the entry below itself nor over a directory above it.
pub proof fn law_rename_upper(
    v: OverlayView,
    fd: u64,
    fname: Seq<char>,
    td: u64,
    tname: Seq<char>,
    b: BaseView,
    now: (i64, i64),
)
    requires
        v.wf(),
        b.wf(),
        v.next_inode < u64::MAX,
        v.knows(fd),
        v.knows(td),
        fname.len() > 0,
        tname.len() > 0,
        v.db.has_path(join_path(v.path_of(fd), fname)),
        join_path(v.path_of(fd), fname) != join_path(v.path_of(td), tname),
        !is_below(join_path(v.path_of(td), tname), join_path(v.path_of(fd), fname)),
        !is_below(join_path(v.path_of(fd), fname), join_path(v.path_of(td), tname)),
        !is_below(v.path_of(td), join_path(v.path_of(fd), fname)),
        v.rename(fd, fname, td, tname, b, now).1 is Ok,
    ensures
        v.rename(fd, fname, td, tname, b, now).0.lookup(td, tname, b).1 is Ok,
        v.registered(join_path(v.path_of(fd), fname)) ==> v.rename(fd, fname, td, tname, b, now).0.lookup(
            td,
            tname,
            b,
        ).1 == Ok::<u64, OverlayError>(v.ino_of(join_path(v.path_of(fd), fname))),
        v.rename(fd, fname, td, tname, b, now).0.lookup(fd, fname, b).1 is Err,
{
    let fp = v.path_of(fd);
    let tp = v.path_of(td);
    let old = join_path(fp, fname);
    let new = join_path(tp, tname);
    let db1 = v.db.remove(new);
    lemma_remove_ok(v.db, new);
    assert(db1.has_path(old));
    assert(db1.row_at(old) == v.db.row_at(old));
    lemma_rename_ok(db1, old, new, now);
    let db2 = db1.rename(old, new, now).0;
    let db3 = db2.remove_whiteout(new);
    lemma_remove_whiteout_wf(db2, new);
    law_db_whiteouts(db2, new);
    let db4 = if b.has(old) {
        db3.add_whiteout(old)
    } else {
        db3
    };
    lemma_add_whiteout_wf(db3, old);
    law_db_whiteouts(db3, old);
    assert(!db4.is_whiteout(new)) by {
        if b.has(old) && !db3.whiteouts.contains(old) {
            assert(db4.whiteouts == db3.whiteouts.push(old));
            if db4.whiteouts.contains(new) {
                let k = choose|k: int| 0 <= k < db4.whiteouts.len() && db4.whiteouts[k] == new;
                if k < db3.whiteouts.len() {
                    assert(db3.whiteouts[k] == new);
                }
            }
        }
    }
    assert(db4.rows == db2.rows);
    assert(db4.has_path(new));
    let w = v.rename(fd, fname, td, tname, b, now).0;
    assert(w == (OverlayView { db: db4, inodes: remap_in(v.inodes, old, new), ..v }));
    lemma_remap_distinct_all(v.inodes, old, new, v.next_inode);
    assert(w.wf());
    // the target directory keeps its path
    assert(child_prefix(tp).len() >= tp.len());
    assert(tp != new && !is_below(tp, new));
    assert(tp != old) by {
        assert(child_prefix(fp).len() >= 1);
        if tp == old {
            assert(old.len() >= 2);
            assert(old != crate::text::root_path());
            assert(new.subrange(0, old.len() + 1int) =~= old.push('/'));
        }
    }
    lemma_remap_lookup(v, old, new, w, td);
    assert(w.knows(td) && w.path_of(td) == tp);
    if v.registered(old) {
        let i = choose|i: int| 0 <= i < v.inodes.len() && #[trigger] v.inodes[i].1 == old;
        lemma_registered_index(v, old, i);
        let ino = v.inodes[i].0;
        lemma_known_index(v, ino, i);
        lemma_remap_lookup(v, old, new, w, ino);
        let k = choose|k: int| 0 <= k < w.inodes.len() && #[trigger] w.inodes[k].0 == ino;
        lemma_known_index(w, ino, k);
        lemma_registered_index(w, new, k);
    }
    // the old name is gone
    assert(fp != old && !is_below(fp, old)) by {
        assert(child_prefix(fp).len() >= fp.len());
    }
    lemma_remap_lookup(v, old, new, w, fd);
}

/// Over NFS, reading back what was written: after a successful `WRITE` of
/// `data` at `offset`, a `READ` of `data.len()` bytes at `offset` gives `data`,
/// and not the end of the file.
pub proof fn law_nfs_read_after_write(
    v: OverlayView,
    id: u64,
    offset: u64,
    data: Seq<u8>,
    b: BaseView,
    now: (i64, i64),
)
    requires
        v.wf(),
        b.wf(),
        !v.db.is_whiteout(v.path_of(id)),
        v.db.has_path(v.path_of(id)) ==> v.db.row_at(v.path_of(id)).item_type == ItemType::File,
        nfs_write(v, id, offset, data, b, now).1 is Ok,
        data.len() <= u32::MAX,
    ensures
        nfs_read(nfs_write(v, id, offset, data, b, now).0, id, offset, data.len() as u32, b) == Ok::<
            (Seq<u8>, bool),
            NfsStatus,
        >((data, false)),
{
    let buf = Seq::new(data.len() as u32 as nat, |i: int| 0u8);
    law_read_after_write(v, id, offset, data, b, now, buf);
    assert(data.take(data.len() as int) =~= data);
}

/// Over NFS, a created file can be looked up: after a successful `CREATE` of
/// `name` in `dirid`, a `LOOKUP` of `name` in `dirid` gives the new file id.
pub proof fn law_nfs_lookup_after_create(
    v: OverlayView,
    dirid: u64,
    name: Seq<u8>,
    mode: Option<u32>,
    b: BaseView,
    now: (i64, i64),
)
    requires
        v.wf(),
        nfs_create(v, dirid, name, mode, b, now).1 is Ok,
    ensures
        nfs_lookup(nfs_create(v, dirid, name, mode, b, now).0, dirid, name, b) == (
            nfs_create(v, dirid, name, mode, b, now).0,
            Ok::<u64, NfsStatus>(nfs_create(v, dirid, name, mode, b, now).1.unwrap().0),
        ),
{
    let n = utf8_name(name).unwrap();
    law_create_then_lookup(v, dirid, n, ItemType::File, create_mode(mode), None, b, now);
}

/// The list of changes is determined by its lines: two sorted orderings of
/// the same lines are the same list.
pub proof fn law_sorted_lines_unique(a: Seq<Seq<char>>, b: Seq<Seq<char>>)
    requires
        sorted_lines(a),
        sorted_lines(b),
        a.to_multiset() == b.to_multiset(),
    ensures
        a == b,
    decreases a.len(),
{
    broadcast use vstd::seq_lib::group_to_multiset_ensures;

    if a.len() == 0 {
        assert(b.to_multiset().len() == 0);
        assert(b =~= a);
    } else {
        assert(a.to_multiset().len() == a.len());
        assert(b.to_multiset().len() == b.len());
        assert(b.len() == a.len());
        assert(a.contains(a[0]));
        assert(b.to_multiset().count(a[0]) > 0);
        assert(b.contains(a[0]));
        let j = choose|j: int| 0 <= j < b.len() && b[j] == a[0];
        assert(b.contains(b[0]));
        assert(a.to_multiset().count(b[0]) > 0);
        assert(a.contains(b[0]));
        let i = choose|i: int| 0 <= i < a.len() && a[i] == b[0];
        if a[0] != b[0] {
            assert(j > 0 && i > 0);
            assert(chars_le(b[0], b[j]));
            assert(chars_le(a[0], a[i]));
            lemma_chars_le_antisym(a[0], b[0]);
        }
        assert(a.remove(0) =~= a.drop_first());
        assert(b.remove(0) =~= b.drop_first());
        assert(a.drop_first().to_multiset() == b.drop_first().to_multiset());
        assert(sorted_lines(a.drop_first())) by {
            assert forall|x: int, y: int| 0 <= x < y < a.drop_first().len() implies chars_le(
                #[trigger] a.drop_first()[x],
                #[trigger] a.drop_first()[y],
            ) by {
                assert(chars_le(a[x + 1], a[y + 1]));
            }
        }
        assert(sorted_lines(b.drop_first())) by {
            assert forall|x: int, y: int| 0 <= x < y < b.drop_first().len() implies chars_le(
                #[trigger] b.drop_first()[x],
                #[trigger] b.drop_first()[y],
            ) by {
                assert(chars_le(b[x + 1], b[y + 1]));
            }
        }
        law_sorted_lines_unique(a.drop_first(), b.drop_first());
        assert(a =~= b) by {
            assert forall|k: int| 0 <= k < a.len() implies a[k] == b[k] by {
                if k > 0 {
                    assert(a[k] == a.drop_first()[k - 1]);
                    assert(b[k] == b.drop_first()[k - 1]);
                }
            }
        }
    }
}

/// Reads pass through: reading a file that only the base has gives the base
/// file's bytes, and changes nothing.
pub proof fn law_read_passes_through(v: OverlayView, ino: u64, offset: u64, buf: Seq<u8>, b: BaseView)
    requires
        v.wf(),
        v.knows(ino),
        !v.db.is_whiteout(v.path_of(ino)),
        !v.db.has_path(v.path_of(ino)),
        b.has(v.path_of(ino)),
        reads_as_file(b.get(v.path_of(ino))),
    ensures
        v.read(ino, offset, buf, b) == ({
            let (nb, n) = read_into(b.get(v.path_of(ino)).content, offset, buf);
            (nb, Ok::<usize, OverlayError>(n))
        }),
{
}

/// Copying up keeps the bytes: a mode change on a file that only the base
/// has puts the base file's bytes into the upper layer, with the new mode.
pub proof fn law_mode_change_copies_up(v: OverlayView, ino: u64, mode: u32, b: BaseView, now: (i64, i64))
    requires
        v.wf(),
        b.wf(),
        v.knows(ino),
        !v.db.has_path(v.path_of(ino)),
        b.has(v.path_of(ino)),
        reads_as_file(b.get(v.path_of(ino))),
        v.setattr(ino, Some(mode), None, None, None, b, now).1 is Ok,
    ensures
        v.setattr(ino, Some(mode), None, None, None, b, now).0.db.has_path(v.path_of(ino)),
        v.setattr(ino, Some(mode), None, None, None, b, now).0.db.row_at(v.path_of(ino)).mode == mode,
        v.setattr(ino, Some(mode), None, None, None, b, now).0.db.row_at(v.path_of(ino)).data == Some(
            b.get(v.path_of(ino)).content,
        ),
{
    let p = v.path_of(ino);
    let content = b.get(p).content;
    lemma_create_ok(v.db, p, ItemType::File, 420, None, now);
    let d1 = v.db.create(p, ItemType::File, 420, None, now).0;
    let r = d1.row_at(p);
    assert(r.data == Some(Seq::<u8>::empty()));
    let nd = splice(Seq::empty(), 0, content);
    assert(nd =~= content);
    let r2 = RowView { size: nd.len() as u64, mtime: now, data: Some(nd), ..r };
    lemma_with_row(d1, p, r2);
    let d2 = d1.with_row(p, r2);
    assert(d1.write(p, 0, content, now).0 == d2);
    assert(copy_up(v.db, p, b, now).0 == d2);
    let r3 = RowView { mode, ctime: now, ..r2 };
    lemma_with_row(d2, p, r3);
    assert(d2.update_mode(p, mode, now) == d2.with_row(p, r3));
}

/// Inode numbers are stable: looking a name up again gives the inode number
/// the first lookup gave, and changes nothing more.
pub proof fn law_lookup_stable(v: OverlayView, parent: u64, name: Seq<char>, b: BaseView)
    requires
        v.wf(),
        v.lookup(parent, name, b).1 is Ok,
    ensures
        v.lookup(parent, name, b).0.lookup(parent, name, b) == v.lookup(parent, name, b),
{
    let cp = join_path(v.path_of(parent), name);
    lemma_assign(v, cp);
    let w = v.assign(cp).0;
    assert(w.knows(parent) && w.path_of(parent) == v.path_of(parent));
    assert(w.assign(cp) == (w, Some(w.ino_of(cp))));
}

/// Setting times keeps everything else: on an entry of the upper layer, a
/// change of the access and modification times alone sets the times given,
/// keeps the others, and leaves mode, size and contents as they were.
pub proof fn law_setattr_times_keep_rest(
    v: OverlayView,
    ino: u64,
    atime: Option<(i64, i64)>,
    mtime: Option<(i64, i64)>,
    b: BaseView,
    now: (i64, i64),
)
    requires
        v.wf(),
        v.knows(ino),
        v.db.has_path(v.path_of(ino)),
    ensures
        v.setattr(ino, None, None, atime, mtime, b, now).1 is Ok,
        ({
            let p = v.path_of(ino);
            let r = v.db.row_at(p);
            let w = v.setattr(ino, None, None, atime, mtime, b, now).0.db;
            &&& w.has_path(p)
            &&& w.row_at(p).mode == r.mode
            &&& w.row_at(p).size == r.size
            &&& w.row_at(p).data == r.data
            &&& w.row_at(p).atime == (match atime {
                Some(t) => t,
                None => r.atime,
            })
            &&& w.row_at(p).mtime == (match mtime {
                Some(t) => t,
                None => r.mtime,
            })
        }),
{
    let p = v.path_of(ino);
    let r = v.db.row_at(p);
    let i = v.db.path_index(p);
    assert(v.db.rows[i].item_type == ItemType::File <==> v.db.rows[i].data is Some);
    if atime is Some || mtime is Some {
        let a = match atime {
            Some(t) => t,
            None => r.atime,
        };
        let m = match mtime {
            Some(t) => t,
            None => r.mtime,
        };
        let r2 = RowView { atime: a, mtime: m, ..r };
        lemma_with_row(v.db, p, r2);
    }
}

/// The upper layer's symlink wins: when the upper layer has a row at the
/// path reached through `ino` with a symlink target, reading the link gives
/// that target, whatever the base holds at the path.
pub proof fn law_readlink_prefers_upper(v: OverlayView, ino: u64, b: BaseView)
    requires
        v.knows(ino),
        v.db.has_path(v.path_of(ino)),
        v.db.row_at(v.path_of(ino)).symlink_target is Some,
    ensures
        v.readlink(ino, b) == Ok::<Seq<char>, OverlayError>(v.db.row_at(v.path_of(ino)).symlink_target.unwrap()),
{
}

/// A created symlink reads back its target: after creating a symlink to `t`,
/// reading the link through the returned inode number gives `t`, whatever the
/// base holds.
pub proof fn law_symlink_then_readlink(
    v: OverlayView,
    parent: u64,
    name: Seq<char>,
    t: Seq<char>,
    b: BaseView,
    now: (i64, i64),
)
    requires
        v.wf(),
        v.create(parent, name, ItemType::Symlink, 511, Some(t), now).1 is Ok,
    ensures
        v.create(parent, name, ItemType::Symlink, 511, Some(t), now).0.readlink(
            v.create(parent, name, ItemType::Symlink, 511, Some(t), now).1.unwrap(),
            b,
        ) == Ok::<Seq<char>, OverlayError>(t),
{
    let cp = join_path(v.path_of(parent), name);
    let db1 = v.db.remove_whiteout(cp);
    lemma_remove_whiteout_wf(v.db, cp);
    lemma_create_ok(db1, cp, ItemType::Symlink, 511, Some(t), now);
    let db2 = db1.create(cp, ItemType::Symlink, 511, Some(t), now).0;
    let v2 = v.with_db(db2);
    assert(v2.wf());
    lemma_assign(v2, cp);
    let w = v2.assign(cp).0;
    let ino = v2.assign(cp).1.unwrap();
    let i = choose|i: int| 0 <= i < w.inodes.len() && #[trigger] w.inodes[i].1 == cp;
    lemma_registered_index(w, cp, i);
    lemma_known_index(w, ino, i);
    assert(w.db == db2);
}

/// Server time means now: an NFS `SETATTR` that sets the access or
/// modification time to the server's time, on an entry of the upper layer,
/// leaves that time equal to the time of the call and answers with it.
pub proof fn law_nfs_server_time(v: OverlayView, id: u64, c: AttrChange, b: BaseView, now: (i64, i64))
    requires
        v.wf(),
        v.knows(id),
        v.db.has_path(v.path_of(id)),
        !v.db.is_whiteout(v.path_of(id)),
        c.size is None,
    ensures
        ({
            let p = v.path_of(id);
            let (w, r) = nfs_setattr(v, id, c, b, now);
            &&& w.db.has_path(p)
            &&& c.atime == TimeChange::ServerTime ==> w.db.row_at(p).atime == now
            &&& c.mtime == TimeChange::ServerTime ==> w.db.row_at(p).mtime == now
            &&& r is Ok
            &&& c.atime == TimeChange::ServerTime ==> r.unwrap().atime == (NfsTime {
                seconds: now.0 as u32,
                nseconds: now.1 as u32,
            })
            &&& c.mtime == TimeChange::ServerTime ==> r.unwrap().mtime == (NfsTime {
                seconds: now.0 as u32,
                nseconds: now.1 as u32,
            })
        }),
{
    let p = v.path_of(id);
    let r0 = v.db.row_at(p);
    let i0 = v.db.path_index(p);
    assert(v.db.rows[i0].item_type == ItemType::File <==> v.db.rows[i0].data is Some);
    let db2 = match c.mode {
        Some(m) => {
            let r1 = RowView { mode: m, ctime: now, ..r0 };
            lemma_with_row(v.db, p, r1);
            v.db.with_row(p, r1)
        },
        None => v.db,
    };
    assert(db2.wf() && db2.has_path(p) && db2.whiteouts == v.db.whiteouts);
    let r2 = db2.row_at(p);
    let at = crate::nfs::spec_time(c.atime, now);
    let mt = crate::nfs::spec_time(c.mtime, now);
    if at is Some || mt is Some {
        let a = match at {
            Some(t) => t,
            None => r2.atime,
        };
        let m = match mt {
            Some(t) => t,
            None => r2.mtime,
        };
        let i2 = db2.path_index(p);
        assert(db2.rows[i2].item_type == ItemType::File <==> db2.rows[i2].data is Some);
        lemma_with_row(db2, p, RowView { atime: a, mtime: m, ..r2 });
    }
}

/// A renamed base file keeps its permission bits: moving a regular file that
/// only the base has puts a file at the new path in the upper layer with the
/// base file's permission bits and contents.
pub proof fn law_rename_base_file_keeps_mode(
    v: OverlayView,
    fd: u64,
    fname: Seq<char>,
    td: u64,
    tname: Seq<char>,
    b: BaseView,
    now: (i64, i64),
)
    requires
        v.wf(),
        v.knows(fd),
        v.knows(td),
        !v.db.is_whiteout(join_path(v.path_of(fd), fname)),
        !v.db.has_path(join_path(v.path_of(fd), fname)),
        b.has(join_path(v.path_of(fd), fname)),
        b.get(join_path(v.path_of(fd), fname)).kind == ItemType::File,
        join_path(v.path_of(td), tname) != join_path(v.path_of(fd), fname),
        v.rename(fd, fname, td, tname, b, now).1 is Ok,
    ensures
        ({
            let old = join_path(v.path_of(fd), fname);
            let new = join_path(v.path_of(td), tname);
            let w = v.rename(fd, fname, td, tname, b, now).0;
            &&& w.db.has_path(new)
            &&& w.db.row_at(new).mode == b.get(old).meta.mode & 0o7777
            &&& w.db.row_at(new).data == Some(b.get(old).content)
        }),
{
    let old = join_path(v.path_of(fd), fname);
    let new = join_path(v.path_of(td), tname);
    let e = b.get(old);
    let mode = e.meta.mode & 0o7777;
    lemma_remove_ok(v.db, new);
    let d0 = v.db.remove(new);
    lemma_remove_whiteout_wf(d0, new);
    let db2 = d0.remove_whiteout(new);
    assert(!db2.has_path(new));
    lemma_create_ok(db2, new, ItemType::File, mode, None, now);
    let d1 = db2.create(new, ItemType::File, mode, None, now).0;
    let r = d1.row_at(new);
    assert(r.data == Some(Seq::<u8>::empty()));
    let nd = splice(Seq::empty(), 0, e.content);
    assert(nd =~= e.content);
    let r2 = RowView { size: nd.len() as u64, mtime: now, data: Some(nd), ..r };
    lemma_with_row(d1, new, r2);
    let d2 = d1.with_row(new, r2);
    assert(d1.write(new, 0, e.content, now).0 == d2);
    assert(copy_file(db2, new, mode, e.content, now).0 == d2);
    lemma_add_whiteout_wf(d2, old);
    let d3 = d2.add_whiteout(old);
    assert(d3.rows == d2.rows);
    assert(d3.has_path(new));
    assert(d3.path_index(new) == d2.path_index(new));
}

/// An exclusive create refuses a name that is there: when looking the name up
/// in the directory succeeds (in either layer), an exclusive NFS `CREATE` of it
/// answers `EXIST` and leaves the upper layer as it was.
pub proof fn law_nfs_create_exclusive_existing(v: OverlayView, dirid: u64, name: Seq<u8>, b: BaseView, now: (i64, i64))
    requires
        utf8_name(name) is Some,
        v.lookup(dirid, utf8_name(name).unwrap(), b).1 is Ok,
    ensures
        nfs_create_exclusive(v, dirid, name, b, now).1 == Err::<u64, NfsStatus>(NfsStatus::Exist),
        nfs_create_exclusive(v, dirid, name, b, now).0.db == v.db,
{
    law_lookup_keeps_upper_layer(v, dirid, utf8_name(name).unwrap(), b);
}

} // verus!

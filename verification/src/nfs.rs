//! The NFSv3 face of the overlay: attributes in NFS form, NFS status codes for
//! overlay failures, and each NFS procedure as one step on the overlay.
use vstd::prelude::*;
use crate::base::{BaseLayer, BaseView};
use crate::db::{entries_view, entry_view, Attrs, DirEntry, ItemType};
use crate::overlay::{OverlayError, OverlayFs, OverlayView};
use crate::clock::now_timespec;
use crate::db::valid_time;
use vstd::string::StringSliceAdditionalSpecFns;
use vstd::utf8::{decode_utf8, encode_utf8, encode_utf8_decode_utf8, valid_utf8};

verus! {

/// The NFS file types that the overlay produces.
#[derive(Debug, Clone, Copy, PartialEq, Eq, Structural)]
pub enum FileKind {
    /// `NF3REG`
    Regular,
    /// `NF3DIR`
    Directory,
    /// `NF3LNK`
    Symlink,
}

/// An NFS time: seconds and nanoseconds.
#[derive(Debug, Clone, Copy, PartialEq, Eq, Structural)]
pub struct NfsTime {
    pub seconds: u32,
    pub nseconds: u32,
}

/// NFS file attributes (`fattr3`; the device numbers are always zero).
#[derive(Debug, Clone, Copy, PartialEq, Eq, Structural)]
pub struct NfsAttr {
    pub ftype: FileKind,
    pub mode: u32,
    pub nlink: u32,
    pub uid: u32,
    pub gid: u32,
    pub size: u64,
    pub used: u64,
    pub fsid: u64,
    pub fileid: u64,
    pub atime: NfsTime,
    pub mtime: NfsTime,
    pub ctime: NfsTime,
}

/// The NFS status codes that the overlay answers with.
#[derive(Debug, Clone, Copy, PartialEq, Eq, Structural)]
pub enum NfsStatus {
    /// `NFS3ERR_NOENT`
    NoEnt,
    /// `NFS3ERR_IO`
    Io,
    /// `NFS3ERR_INVAL`
    Inval,
    /// `NFS3ERR_EXIST`
    Exist,
}

/// How a time attribute is to change (`set_atime` / `set_mtime`).
#[derive(Debug, Clone, Copy, PartialEq, Eq, Structural)]
pub enum TimeChange {
    DontChange,
    ServerTime,
    ClientTime(u32, u32),
}

/// The attribute changes that the overlay applies (`sattr3` without owner
/// changes).
#[derive(Debug, Clone, Copy)]
pub struct AttrChange {
    pub mode: Option<u32>,
    pub size: Option<u64>,
    pub atime: TimeChange,
    pub mtime: TimeChange,
}

/// A directory entry with its attributes.
#[derive(Debug, Clone)]
pub struct NfsDirEntry {
    pub fileid: u64,
    pub name: Vec<u8>,
    pub attr: NfsAttr,
}

/// One page of a directory listing; `end` is set when the page is not full.
#[derive(Debug, Clone)]
pub struct ReadDirPage {
    pub entries: Vec<NfsDirEntry>,
    pub end: bool,
}

/// What a directory entry holds, as plain values.
pub open spec fn nfs_entry_view(e: NfsDirEntry) -> (u64, Seq<u8>, NfsAttr) {
    (e.fileid, e.name@, e.attr)
}

/// The plain values of directory entries.
pub open spec fn nfs_entries_view(v: Seq<NfsDirEntry>) -> Seq<(u64, Seq<u8>, NfsAttr)> {
    v.map_values(|e: NfsDirEntry| nfs_entry_view(e))
}

/// The NFS file type of an item type.
pub open spec fn spec_ftype(t: ItemType) -> FileKind {
    match t {
        ItemType::File => FileKind::Regular,
        ItemType::Directory => FileKind::Directory,
        ItemType::Symlink => FileKind::Symlink,
    }
}

/// The file-type bits added to the mode: `S_IFREG`, `S_IFDIR`, `S_IFLNK`.
pub open spec fn type_bits(t: ItemType) -> u32 {
    match t {
        ItemType::File => 0o100000,
        ItemType::Directory => 0o040000,
        ItemType::Symlink => 0o120000,
    }
}

/// The NFS attributes of overlay attributes: the mode gains the file-type
/// bits, the used size is the size, the filesystem id is 1, and times are cut
/// to 32 bits.
pub open spec fn spec_fattr(a: Attrs) -> NfsAttr {
    NfsAttr {
        ftype: spec_ftype(a.item_type),
        mode: a.mode | type_bits(a.item_type),
        nlink: a.link_count,
        uid: a.uid,
        gid: a.gid,
        size: a.size,
        used: a.size,
        fsid: 1,
        fileid: a.file_id,
        atime: NfsTime { seconds: a.atime_sec as u32, nseconds: a.atime_nsec as u32 },
        mtime: NfsTime { seconds: a.mtime_sec as u32, nseconds: a.mtime_nsec as u32 },
        ctime: NfsTime { seconds: a.ctime_sec as u32, nseconds: a.ctime_nsec as u32 },
    }
}

/// The NFS status for an overlay failure: a missing inode, parent or path is
/// `NOENT`, and so is a whiteout where `whiteout_noent`; anything else is
/// `IO`.
pub open spec fn spec_status(e: OverlayError, whiteout_noent: bool) -> NfsStatus {
    match e {
        OverlayError::InodeNotFound(_) => NfsStatus::NoEnt,
        OverlayError::ParentNotFound(_) => NfsStatus::NoEnt,
        OverlayError::NotFound => NfsStatus::NoEnt,
        OverlayError::WhitedOut => if whiteout_noent {
            NfsStatus::NoEnt
        } else {
            NfsStatus::Io
        },
        _ => NfsStatus::Io,
    }
}

/// An overlay result with failures turned into NFS status codes.
pub open spec fn with_status<T>(r: Result<T, OverlayError>, whiteout_noent: bool) -> Result<T, NfsStatus> {
    match r {
        Ok(x) => Ok(x),
        Err(e) => Err(spec_status(e, whiteout_noent)),
    }
}

/// The name that a byte string spells, when it is UTF-8.
pub open spec fn utf8_name(b: Seq<u8>) -> Option<Seq<char>> {
    if valid_utf8(b) {
        Some(decode_utf8(b))
    } else {
        None
    }
}

/// The time an attribute change sets: the client's, `now` for the server's,
/// none when unchanged.
pub open spec fn spec_time(t: TimeChange, now: (i64, i64)) -> Option<(i64, i64)> {
    match t {
        TimeChange::DontChange => None,
        TimeChange::ServerTime => Some(now),
        TimeChange::ClientTime(s, n) => Some((s as i64, n as i64)),
    }
}

/// `std::str::from_utf8`: the string slice with exactly the given bytes, or
/// `None` when the bytes are not UTF-8, as std documents.
#[verifier::external_body]
fn str_from_utf8<'a>(b: &'a [u8]) -> (r: Option<&'a str>)
    ensures
        r is Some <==> valid_utf8(b@),
        r matches Some(s) ==> s.spec_bytes() == b@,
{
    std::str::from_utf8(b).ok()
}

/// The NFS file type of an item type.
pub fn item_type_to_ftype(t: ItemType) -> (r: FileKind)
    ensures
        r == spec_ftype(t),
{
    match t {
        ItemType::File => FileKind::Regular,
        ItemType::Directory => FileKind::Directory,
        ItemType::Symlink => FileKind::Symlink,
    }
}

/// The NFS attributes of overlay attributes.
pub fn attrs_to_fattr3(a: &Attrs) -> (r: NfsAttr)
    ensures
        r == spec_fattr(*a),
{
    let mode_with_type = match a.item_type {
        ItemType::File => a.mode | 0o100000,
        ItemType::Directory => a.mode | 0o040000,
        ItemType::Symlink => a.mode | 0o120000,
    };
    NfsAttr {
        ftype: item_type_to_ftype(a.item_type),
        mode: mode_with_type,
        nlink: a.link_count,
        uid: a.uid,
        gid: a.gid,
        size: a.size,
        used: a.size,
        fsid: 1,
        fileid: a.file_id,
        atime: NfsTime { seconds: a.atime_sec as u32, nseconds: a.atime_nsec as u32 },
        mtime: NfsTime { seconds: a.mtime_sec as u32, nseconds: a.mtime_nsec as u32 },
        ctime: NfsTime { seconds: a.ctime_sec as u32, nseconds: a.ctime_nsec as u32 },
    }
}

/// The file name that NFS bytes spell; `INVAL` when they are not UTF-8.
pub fn filename_to_str(b: &[u8]) -> (r: Result<String, NfsStatus>)
    ensures
        match utf8_name(b@) {
            Some(n) => r matches Ok(s) && s@ == n,
            None => r == Err::<String, NfsStatus>(NfsStatus::Inval),
        },
{
    match str_from_utf8(b) {
        Some(s) => {
            proof {
                encode_utf8_decode_utf8(s@);
            }
            Ok(s.to_owned())
        },
        None => Err(NfsStatus::Inval),
    }
}

/// The path that NFS bytes spell; `INVAL` when they are not UTF-8.
pub fn nfspath_to_string(b: &[u8]) -> (r: Result<String, NfsStatus>)
    ensures
        match utf8_name(b@) {
            Some(n) => r matches Ok(s) && s@ == n,
            None => r == Err::<String, NfsStatus>(NfsStatus::Inval),
        },
{
    filename_to_str(b)
}

/// The NFS status for any overlay failure whose kind is not told apart: `IO`.
pub fn map_err(_e: OverlayError) -> (r: NfsStatus)
    ensures
        r == NfsStatus::Io,
{
    NfsStatus::Io
}

/// The NFS status for an overlay failure.
pub fn status_of(e: OverlayError, whiteout_noent: bool) -> (r: NfsStatus)
    ensures
        r == spec_status(e, whiteout_noent),
{
    match e {
        OverlayError::InodeNotFound(_) => NfsStatus::NoEnt,
        OverlayError::ParentNotFound(_) => NfsStatus::NoEnt,
        OverlayError::NotFound => NfsStatus::NoEnt,
        OverlayError::WhitedOut => if whiteout_noent {
            NfsStatus::NoEnt
        } else {
            NfsStatus::Io
        },
        _ => NfsStatus::Io,
    }
}

/// The time an attribute change sets.
pub fn change_time(t: TimeChange, now: (i64, i64)) -> (r: Option<(i64, i64)>)
    ensures
        r == spec_time(t, now),
{
    match t {
        TimeChange::DontChange => None,
        TimeChange::ServerTime => Some(now),
        TimeChange::ClientTime(s, n) => Some((s as i64, n as i64)),
    }
}

/// The mode a created file gets: the permission bits asked for, else 0o644.
pub open spec fn create_mode(mode: Option<u32>) -> u32 {
    match mode {
        Some(m) => m & 0o777,
        None => 0o644,
    }
}

/// The entries of a listing that a page starting after `start_after` covers:
/// all of them when `start_after` is 0, else those after the first entry with
/// that inode number (none when no entry has it), at most `max` of them.
pub open spec fn page_range(es: Seq<(u64, Seq<char>, ItemType)>, start_after: u64, max: nat) -> Seq<
    (u64, Seq<char>, ItemType),
> {
    let start = if start_after == 0 {
        0
    } else {
        first_after(es, start_after)
    };
    let end = if start + max < es.len() {
        start + max
    } else {
        es.len() as int
    };
    es.subrange(start, end)
}

/// The position just after the first entry with inode number `id`, or the
/// length when there is none.
pub open spec fn first_after(es: Seq<(u64, Seq<char>, ItemType)>, id: u64) -> int
    decreases es.len(),
{
    if es.len() == 0 {
        0
    } else if es[0].0 == id {
        1
    } else {
        1 + first_after(es.skip(1), id)
    }
}

/// The page entries in NFS form, with attributes from `v`; `None` when some
/// entry has no attributes.
pub open spec fn page_entries(v: OverlayView, page: Seq<(u64, Seq<char>, ItemType)>, b: BaseView) -> Option<
    Seq<(u64, Seq<u8>, NfsAttr)>,
> {
    if forall|k: int| 0 <= k < page.len() ==> (#[trigger] v.getattr(page[k].0, b)) is Ok {
        Some(
            Seq::new(
                page.len(),
                |k: int|
                    (
                        page[k].0,
                        vstd::utf8::encode_utf8(page[k].1),
                        spec_fattr(v.getattr(page[k].0, b).unwrap()),
                    ),
            ),
        )
    } else {
        None
    }
}

/// The overlay's answer to `READDIR`: its listing of `dir`, paged after
/// `start_after` with at most `max` entries, each with its attributes; the page
/// ends the listing when it holds fewer than `max` entries.
pub open spec fn spec_readdir(v: OverlayView, dir: u64, start_after: u64, max: nat, b: BaseView) -> (
    OverlayView,
    Result<(Seq<(u64, Seq<u8>, NfsAttr)>, bool), NfsStatus>,
) {
    let (w, r) = v.readdir(dir, b);
    match r {
        Err(e) => (w, Err(spec_status(e, true))),
        Ok(es) => {
            let page = page_range(es, start_after, max);
            match page_entries(w, page, b) {
                Some(p) => (w, Ok((p, page.len() < max))),
                None => (w, Err(NfsStatus::Io)),
            }
        },
    }
}

/// The attributes reached through `id` after a change, in NFS form; `IO` when
/// there are none.
pub open spec fn attr_after(v: OverlayView, id: u64, b: BaseView) -> Result<NfsAttr, NfsStatus> {
    match v.getattr(id, b) {
        Ok(a) => Ok(spec_fattr(a)),
        Err(_) => Err(NfsStatus::Io),
    }
}

/// A new entry's inode number with its attributes, once it was made.
pub open spec fn made(v: OverlayView, r: Result<u64, OverlayError>, b: BaseView) -> Result<
    (u64, NfsAttr),
    NfsStatus,
> {
    match r {
        Err(e) => Err(spec_status(e, false)),
        Ok(ino) => match attr_after(v, ino, b) {
            Ok(a) => Ok((ino, a)),
            Err(s) => Err(s),
        },
    }
}

/// `LOOKUP` of the name spelled by `name` in directory `dirid`.
pub open spec fn nfs_lookup(v: OverlayView, dirid: u64, name: Seq<u8>, b: BaseView) -> (
    OverlayView,
    Result<u64, NfsStatus>,
) {
    match utf8_name(name) {
        None => (v, Err(NfsStatus::Inval)),
        Some(n) => {
            let (w, r) = v.lookup(dirid, n, b);
            (w, with_status(r, true))
        },
    }
}

/// `GETATTR` of `id`.
pub open spec fn nfs_getattr(v: OverlayView, id: u64, b: BaseView) -> Result<NfsAttr, NfsStatus> {
    match v.getattr(id, b) {
        Ok(a) => Ok(spec_fattr(a)),
        Err(e) => Err(spec_status(e, true)),
    }
}

/// `SETATTR` of `id` at time `now`, answered with the new attributes.
pub open spec fn nfs_setattr(v: OverlayView, id: u64, c: AttrChange, b: BaseView, now: (i64, i64)) -> (
    OverlayView,
    Result<NfsAttr, NfsStatus>,
) {
    let (w, r) = v.setattr(id, c.mode, c.size, spec_time(c.atime, now), spec_time(c.mtime, now), b, now);
    match r {
        Err(e) => (w, Err(spec_status(e, false))),
        Ok(_) => (w, attr_after(w, id, b)),
    }
}

/// `READ` of at most `count` bytes of `id` from `offset`: the bytes read, and
/// whether fewer than `count` came back.
pub open spec fn nfs_read(v: OverlayView, id: u64, offset: u64, count: u32, b: BaseView) -> Result<
    (Seq<u8>, bool),
    NfsStatus,
> {
    let (buf, r) = v.read(id, offset, Seq::new(count as nat, |i: int| 0u8), b);
    match r {
        Err(e) => Err(spec_status(e, true)),
        Ok(n) => Ok((buf.take(n as int), n < count)),
    }
}

/// `WRITE` of `data` at `offset` into `id` at time `now`, answered with the
/// new attributes.
pub open spec fn nfs_write(v: OverlayView, id: u64, offset: u64, data: Seq<u8>, b: BaseView, now: (i64, i64)) -> (
    OverlayView,
    Result<NfsAttr, NfsStatus>,
) {
    let (w, r) = v.write(id, offset, data, b, now);
    match r {
        Err(e) => (w, Err(spec_status(e, false))),
        Ok(_) => (w, attr_after(w, id, b)),
    }
}

/// `CREATE` of a file named by `name` in `dirid` at time `now`.
pub open spec fn nfs_create(
    v: OverlayView,
    dirid: u64,
    name: Seq<u8>,
    mode: Option<u32>,
    b: BaseView,
    now: (i64, i64),
) -> (OverlayView, Result<(u64, NfsAttr), NfsStatus>) {
    match utf8_name(name) {
        None => (v, Err(NfsStatus::Inval)),
        Some(n) => {
            let (w, r) = v.create(dirid, n, ItemType::File, create_mode(mode), None, now);
            (w, made(w, r, b))
        },
    }
}

/// `CREATE` in exclusive mode: `EXIST` when the name is found.
pub open spec fn nfs_create_exclusive(v: OverlayView, dirid: u64, name: Seq<u8>, b: BaseView, now: (i64, i64)) -> (
    OverlayView,
    Result<u64, NfsStatus>,
) {
    match utf8_name(name) {
        None => (v, Err(NfsStatus::Inval)),
        Some(n) => {
            let (v1, l) = v.lookup(dirid, n, b);
            if l is Ok {
                (v1, Err(NfsStatus::Exist))
            } else {
                let (w, r) = v1.create(dirid, n, ItemType::File, 420, None, now);
                match r {
                    Ok(ino) => (w, Ok(ino)),
                    Err(_) => (w, Err(NfsStatus::Io)),
                }
            }
        },
    }
}

/// `MKDIR` of a directory named by `name` in `dirid` at time `now`, with
/// permissions 0o755.
pub open spec fn nfs_mkdir(v: OverlayView, dirid: u64, name: Seq<u8>, b: BaseView, now: (i64, i64)) -> (
    OverlayView,
    Result<(u64, NfsAttr), NfsStatus>,
) {
    match utf8_name(name) {
        None => (v, Err(NfsStatus::Inval)),
        Some(n) => {
            let (w, r) = v.create(dirid, n, ItemType::Directory, 493, None, now);
            (w, made(w, r, b))
        },
    }
}

/// `REMOVE` of the name spelled by `name` in `dirid`: a name that is not found
/// is `NOENT`.
pub open spec fn nfs_remove(v: OverlayView, dirid: u64, name: Seq<u8>, b: BaseView) -> (
    OverlayView,
    Result<(), NfsStatus>,
) {
    match utf8_name(name) {
        None => (v, Err(NfsStatus::Inval)),
        Some(n) => {
            let (v1, l) = v.lookup(dirid, n, b);
            match l {
                Err(_) => (v1, Err(NfsStatus::NoEnt)),
                Ok(ino) => {
                    let (w, r) = v1.remove(ino, b);
                    match r {
                        Ok(_) => (w, Ok(())),
                        Err(_) => (w, Err(NfsStatus::Io)),
                    }
                },
            }
        },
    }
}

/// `RENAME` at time `now`.
pub open spec fn nfs_rename(
    v: OverlayView,
    from_dirid: u64,
    from_name: Seq<u8>,
    to_dirid: u64,
    to_name: Seq<u8>,
    b: BaseView,
    now: (i64, i64),
) -> (OverlayView, Result<(), NfsStatus>) {
    match (utf8_name(from_name), utf8_name(to_name)) {
        (Some(f), Some(t)) => {
            let (w, r) = v.rename(from_dirid, f, to_dirid, t, b, now);
            (w, with_status(r, false))
        },
        _ => (v, Err(NfsStatus::Inval)),
    }
}

/// `SYMLINK` named by `name` in `dirid`, pointing to the path spelled by
/// `target`, at time `now`.
pub open spec fn nfs_symlink(
    v: OverlayView,
    dirid: u64,
    name: Seq<u8>,
    target: Seq<u8>,
    b: BaseView,
    now: (i64, i64),
) -> (OverlayView, Result<(u64, NfsAttr), NfsStatus>) {
    match (utf8_name(name), utf8_name(target)) {
        (Some(n), Some(t)) => {
            let (w, r) = v.create(dirid, n, ItemType::Symlink, 511, Some(t), now);
            (w, made(w, r, b))
        },
        _ => (v, Err(NfsStatus::Inval)),
    }
}

/// `READLINK` of `id`: the target's UTF-8 bytes.
pub open spec fn nfs_readlink(v: OverlayView, id: u64, b: BaseView) -> Result<Seq<u8>, NfsStatus> {
    match v.readlink(id, b) {
        Ok(t) => Ok(encode_utf8(t)),
        Err(e) => Err(spec_status(e, true)),
    }
}

/// The UTF-8 bytes of a string.
fn bytes_of(s: &String) -> (r: Vec<u8>)
    ensures
        r@ == encode_utf8(s@),
{
    vstd::slice::slice_to_vec(s.as_str().as_bytes())
}

/// The overlay served over NFSv3: each procedure is one step on the overlay,
/// given the base entries it may touch.
pub struct NfsOverlay {
    inner: OverlayFs,
}

impl View for NfsOverlay {
    type V = OverlayView;

    closed spec fn view(&self) -> OverlayView {
        self.inner@
    }
}

impl NfsOverlay {
    /// The overlay's invariant holds.
    pub open spec fn wf(&self) -> bool {
        self@.wf()
    }

    /// Serves `overlay`.
    pub fn new(overlay: OverlayFs) -> (r: NfsOverlay)
        requires
            overlay.wf(),
        ensures
            r.wf(),
            r@ == overlay@,
    {
        NfsOverlay { inner: overlay }
    }

    /// The overlay served.
    pub fn overlay(&self) -> (r: &OverlayFs)
        ensures
            r@ == self@,
    {
        &self.inner
    }

    /// The root directory's file id.
    pub fn root_dir(&self) -> (r: u64)
        ensures
            r == 1,
    {
        1
    }

    /// `LOOKUP`.
    pub fn lookup(&mut self, dirid: u64, filename: &[u8], base: &BaseLayer) -> (r: Result<u64, NfsStatus>)
        requires
            old(self).wf(),
            base.wf(),
        ensures
            final(self).wf(),
            (final(self)@, r) == nfs_lookup(old(self)@, dirid, filename@, base@),
    {
        let name = match filename_to_str(filename) {
            Ok(n) => n,
            Err(e) => {
                return Err(e);
            },
        };
        match self.inner.lookup(dirid, name.as_str(), base) {
            Ok(i) => Ok(i),
            Err(e) => Err(status_of(e, true)),
        }
    }

    /// `GETATTR`.
    pub fn getattr(&self, id: u64, base: &BaseLayer) -> (r: Result<NfsAttr, NfsStatus>)
        requires
            self.wf(),
            base.wf(),
        ensures
            r == nfs_getattr(self@, id, base@),
    {
        match self.inner.getattr(id, base) {
            Ok(a) => Ok(attrs_to_fattr3(&a)),
            Err(e) => Err(status_of(e, true)),
        }
    }

    /// The attributes reached through `id` after a change.
    fn attr_after(&self, id: u64, base: &BaseLayer) -> (r: Result<NfsAttr, NfsStatus>)
        requires
            self.wf(),
            base.wf(),
        ensures
            r == attr_after(self@, id, base@),
    {
        match self.inner.getattr(id, base) {
            Ok(a) => Ok(attrs_to_fattr3(&a)),
            Err(_) => Err(NfsStatus::Io),
        }
    }

    /// `SETATTR` at time `now`.
    pub fn setattr_at(&mut self, id: u64, change: AttrChange, base: &BaseLayer, now: (i64, i64)) -> (r: Result<
        NfsAttr,
        NfsStatus,
    >)
        requires
            old(self).wf(),
            base.wf(),
            change.size matches Some(s) ==> s <= usize::MAX,
        ensures
            final(self).wf(),
            (final(self)@, r) == nfs_setattr(old(self)@, id, change, base@, now),
    {
        let atime = change_time(change.atime, now);
        let mtime = change_time(change.mtime, now);
        match self.inner.setattr_at(id, change.mode, change.size, atime, mtime, base, now) {
            Err(e) => Err(status_of(e, false)),
            Ok(_) => self.attr_after(id, base),
        }
    }

    /// `SETATTR`, now.
    pub fn setattr(&mut self, id: u64, change: AttrChange, base: &BaseLayer) -> (r: Result<NfsAttr, NfsStatus>)
        requires
            old(self).wf(),
            base.wf(),
            change.size matches Some(s) ==> s <= usize::MAX,
        ensures
            final(self).wf(),
            exists|t: (i64, i64)|
                valid_time(t) && (final(self)@, r) == #[trigger] nfs_setattr(old(self)@, id, change, base@, t),
    {
        let now = now_timespec();
        self.setattr_at(id, change, base, now)
    }

    /// `READ` of at most `count` bytes from `offset`.
    pub fn read(&self, id: u64, offset: u64, count: u32, base: &BaseLayer) -> (r: Result<(Vec<u8>, bool), NfsStatus>)
        requires
            self.wf(),
            base.wf(),
        ensures
            match nfs_read(self@, id, offset, count, base@) {
                Ok((d, eof)) => r matches Ok((v, e)) && v@ == d && e == eof,
                Err(s) => r == Err::<(Vec<u8>, bool), NfsStatus>(s),
            },
    {
        let mut buf: Vec<u8> = Vec::new();
        let mut i: u32 = 0;
        while i < count
            invariant
                i <= count,
                buf@ =~= Seq::new(i as nat, |k: int| 0u8),
            decreases count - i,
        {
            buf.push(0u8);
            i = i + 1;
        }
        assert(buf@ =~= Seq::new(count as nat, |k: int| 0u8));
        match self.inner.read(id, offset, &mut buf, base) {
            Err(e) => Err(status_of(e, true)),
            Ok(n) => {
                buf.truncate(n);
                let eof = (n as u64) < (count as u64);
                Ok((buf, eof))
            },
        }
    }

    /// `WRITE` of `data` at `offset`, at time `now`.
    pub fn write_at(&mut self, id: u64, offset: u64, data: &[u8], base: &BaseLayer, now: (i64, i64)) -> (r: Result<
        NfsAttr,
        NfsStatus,
    >)
        requires
            old(self).wf(),
            base.wf(),
            offset + data@.len() <= usize::MAX,
        ensures
            final(self).wf(),
            (final(self)@, r) == nfs_write(old(self)@, id, offset, data@, base@, now),
    {
        match self.inner.write_at(id, offset, data, base, now) {
            Err(e) => Err(status_of(e, false)),
            Ok(_) => self.attr_after(id, base),
        }
    }

    /// `WRITE` of `data` at `offset`, now.
    pub fn write(&mut self, id: u64, offset: u64, data: &[u8], base: &BaseLayer) -> (r: Result<NfsAttr, NfsStatus>)
        requires
            old(self).wf(),
            base.wf(),
            offset + data@.len() <= usize::MAX,
        ensures
            final(self).wf(),
            exists|t: (i64, i64)|
                valid_time(t) && (final(self)@, r) == #[trigger] nfs_write(old(self)@, id, offset, data@, base@, t),
    {
        let now = now_timespec();
        self.write_at(id, offset, data, base, now)
    }

    /// The answer to a procedure that made an entry: its inode number with its
    /// attributes.
    fn made(&self, r: Result<u64, OverlayError>, base: &BaseLayer) -> (m: Result<(u64, NfsAttr), NfsStatus>)
        requires
            self.wf(),
            base.wf(),
        ensures
            m == made(self@, r, base@),
    {
        match r {
            Err(e) => Err(status_of(e, false)),
            Ok(ino) => match self.attr_after(ino, base) {
                Ok(a) => Ok((ino, a)),
                Err(s) => Err(s),
            },
        }
    }

    /// `CREATE` of a file with the permission bits of `mode` (0o644 when none
    /// is given), at time `now`.
    pub fn create_at(&mut self, dirid: u64, filename: &[u8], mode: Option<u32>, base: &BaseLayer, now: (i64, i64)) -> (r:
        Result<(u64, NfsAttr), NfsStatus>)
        requires
            old(self).wf(),
            base.wf(),
        ensures
            final(self).wf(),
            (final(self)@, r) == nfs_create(old(self)@, dirid, filename@, mode, base@, now),
    {
        let name = match filename_to_str(filename) {
            Ok(n) => n,
            Err(e) => {
                return Err(e);
            },
        };
        let m = match mode {
            Some(m) => m & 0o777,
            None => 0o644,
        };
        let r = self.inner.create_at(dirid, name.as_str(), ItemType::File, m, now);
        self.made(r, base)
    }

    /// `CREATE` of a file, now.
    pub fn create(&mut self, dirid: u64, filename: &[u8], mode: Option<u32>, base: &BaseLayer) -> (r: Result<
        (u64, NfsAttr),
        NfsStatus,
    >)
        requires
            old(self).wf(),
            base.wf(),
        ensures
            final(self).wf(),
            exists|t: (i64, i64)|
                valid_time(t) && (final(self)@, r) == #[trigger] nfs_create(old(self)@, dirid, filename@, mode, base@, t),
    {
        let now = now_timespec();
        self.create_at(dirid, filename, mode, base, now)
    }

    /// `CREATE` in exclusive mode, at time `now`.
    pub fn create_exclusive_at(&mut self, dirid: u64, filename: &[u8], base: &BaseLayer, now: (i64, i64)) -> (r: Result<
        u64,
        NfsStatus,
    >)
        requires
            old(self).wf(),
            base.wf(),
        ensures
            final(self).wf(),
            (final(self)@, r) == nfs_create_exclusive(old(self)@, dirid, filename@, base@, now),
    {
        let name = match filename_to_str(filename) {
            Ok(n) => n,
            Err(e) => {
                return Err(e);
            },
        };
        if self.inner.lookup(dirid, name.as_str(), base).is_ok() {
            return Err(NfsStatus::Exist);
        }
        match self.inner.create_at(dirid, name.as_str(), ItemType::File, 0o644, now) {
            Ok(ino) => Ok(ino),
            Err(_) => Err(NfsStatus::Io),
        }
    }

    /// `CREATE` in exclusive mode, now.
    pub fn create_exclusive(&mut self, dirid: u64, filename: &[u8], base: &BaseLayer) -> (r: Result<u64, NfsStatus>)
        requires
            old(self).wf(),
            base.wf(),
        ensures
            final(self).wf(),
            exists|t: (i64, i64)|
                valid_time(t) && (final(self)@, r) == #[trigger] nfs_create_exclusive(old(self)@, dirid, filename@, base@, t),
    {
        let now = now_timespec();
        self.create_exclusive_at(dirid, filename, base, now)
    }

    /// `MKDIR` with permissions 0o755, at time `now`.
    pub fn mkdir_at(&mut self, dirid: u64, dirname: &[u8], base: &BaseLayer, now: (i64, i64)) -> (r: Result<
        (u64, NfsAttr),
        NfsStatus,
    >)
        requires
            old(self).wf(),
            base.wf(),
        ensures
            final(self).wf(),
            (final(self)@, r) == nfs_mkdir(old(self)@, dirid, dirname@, base@, now),
    {
        let name = match filename_to_str(dirname) {
            Ok(n) => n,
            Err(e) => {
                return Err(e);
            },
        };
        let r = self.inner.create_at(dirid, name.as_str(), ItemType::Directory, 0o755, now);
        self.made(r, base)
    }

    /// `MKDIR` with permissions 0o755, now.
    pub fn mkdir(&mut self, dirid: u64, dirname: &[u8], base: &BaseLayer) -> (r: Result<(u64, NfsAttr), NfsStatus>)
        requires
            old(self).wf(),
            base.wf(),
        ensures
            final(self).wf(),
            exists|t: (i64, i64)|
                valid_time(t) && (final(self)@, r) == #[trigger] nfs_mkdir(old(self)@, dirid, dirname@, base@, t),
    {
        let now = now_timespec();
        self.mkdir_at(dirid, dirname, base, now)
    }

    /// `REMOVE`.
    pub fn remove(&mut self, dirid: u64, filename: &[u8], base: &BaseLayer) -> (r: Result<(), NfsStatus>)
        requires
            old(self).wf(),
            base.wf(),
        ensures
            final(self).wf(),
            (final(self)@, r) == nfs_remove(old(self)@, dirid, filename@, base@),
    {
        let name = match filename_to_str(filename) {
            Ok(n) => n,
            Err(e) => {
                return Err(e);
            },
        };
        let ino = match self.inner.lookup(dirid, name.as_str(), base) {
            Ok(i) => i,
            Err(_) => {
                return Err(NfsStatus::NoEnt);
            },
        };
        match self.inner.remove(ino, base) {
            Ok(_) => Ok(()),
            Err(_) => Err(NfsStatus::Io),
        }
    }

    /// `RENAME`, at time `now`.
    pub fn rename_at(
        &mut self,
        from_dirid: u64,
        from_filename: &[u8],
        to_dirid: u64,
        to_filename: &[u8],
        base: &BaseLayer,
        now: (i64, i64),
    ) -> (r: Result<(), NfsStatus>)
        requires
            old(self).wf(),
            base.wf(),
        ensures
            final(self).wf(),
            (final(self)@, r) == nfs_rename(old(self)@, from_dirid, from_filename@, to_dirid, to_filename@, base@, now),
    {
        let from_name = match filename_to_str(from_filename) {
            Ok(n) => n,
            Err(e) => {
                return Err(e);
            },
        };
        let to_name = match filename_to_str(to_filename) {
            Ok(n) => n,
            Err(e) => {
                return Err(e);
            },
        };
        match self.inner.rename_at(from_dirid, from_name.as_str(), to_dirid, to_name.as_str(), base, now) {
            Ok(_) => Ok(()),
            Err(e) => Err(status_of(e, false)),
        }
    }

    /// `RENAME`, now.
    pub fn rename(&mut self, from_dirid: u64, from_filename: &[u8], to_dirid: u64, to_filename: &[u8], base: &BaseLayer) -> (r:
        Result<(), NfsStatus>)
        requires
            old(self).wf(),
            base.wf(),
        ensures
            final(self).wf(),
            exists|t: (i64, i64)|
                valid_time(t) && (final(self)@, r) == #[trigger] nfs_rename(
                    old(self)@,
                    from_dirid,
                    from_filename@,
                    to_dirid,
                    to_filename@,
                    base@,
                    t,
                ),
    {
        let now = now_timespec();
        self.rename_at(from_dirid, from_filename, to_dirid, to_filename, base, now)
    }

    /// `SYMLINK`, at time `now`.
    pub fn symlink_at(&mut self, dirid: u64, linkname: &[u8], target: &[u8], base: &BaseLayer, now: (i64, i64)) -> (r:
        Result<(u64, NfsAttr), NfsStatus>)
        requires
            old(self).wf(),
            base.wf(),
        ensures
            final(self).wf(),
            (final(self)@, r) == nfs_symlink(old(self)@, dirid, linkname@, target@, base@, now),
    {
        let name = match filename_to_str(linkname) {
            Ok(n) => n,
            Err(e) => {
                return Err(e);
            },
        };
        let t = match nfspath_to_string(target) {
            Ok(t) => t,
            Err(e) => {
                return Err(e);
            },
        };
        let r = self.inner.symlink_at(dirid, name.as_str(), t.as_str(), now);
        self.made(r, base)
    }

    /// `SYMLINK`, now.
    pub fn symlink(&mut self, dirid: u64, linkname: &[u8], target: &[u8], base: &BaseLayer) -> (r: Result<
        (u64, NfsAttr),
        NfsStatus,
    >)
        requires
            old(self).wf(),
            base.wf(),
        ensures
            final(self).wf(),
            exists|t: (i64, i64)|
                valid_time(t) && (final(self)@, r) == #[trigger] nfs_symlink(old(self)@, dirid, linkname@, target@, base@, t),
    {
        let now = now_timespec();
        self.symlink_at(dirid, linkname, target, base, now)
    }

    /// `READLINK`.
    pub fn readlink(&self, id: u64, base: &BaseLayer) -> (r: Result<Vec<u8>, NfsStatus>)
        requires
            self.wf(),
            base.wf(),
        ensures
            match nfs_readlink(self@, id, base@) {
                Ok(b) => r matches Ok(v) && v@ == b,
                Err(s) => r == Err::<Vec<u8>, NfsStatus>(s),
            },
    {
        match self.inner.readlink(id, base) {
            Ok(t) => Ok(bytes_of(&t)),
            Err(e) => Err(status_of(e, true)),
        }
    }

    /// `READDIR` of `dirid`: at most `max_entries` entries after the one with
    /// file id `start_after` (from the first when it is 0), each with its
    /// attributes.
    pub fn readdir(&mut self, dirid: u64, start_after: u64, max_entries: usize, base: &BaseLayer) -> (r: Result<
        ReadDirPage,
        NfsStatus,
    >)
        requires
            old(self).wf(),
            base.wf(),
        ensures
            final(self).wf(),
            final(self)@ == spec_readdir(old(self)@, dirid, start_after, max_entries as nat, base@).0,
            match spec_readdir(old(self)@, dirid, start_after, max_entries as nat, base@).1 {
                Ok((es, end)) => r matches Ok(p) && nfs_entries_view(p.entries@) == es && p.end == end,
                Err(s) => r matches Err(x) && x == s,
            },
    {
        let entries = match self.inner.readdir(dirid, base) {
            Ok(v) => v,
            Err(e) => {
                return Err(status_of(e, true));
            },
        };
        let ghost es = entries_view(entries@);
        assert(old(self)@.readdir(dirid, base@).1 == Ok::<Seq<(u64, Seq<char>, ItemType)>, OverlayError>(es));
        let start = if start_after == 0 {
            0
        } else {
            find_start(&entries, start_after)
        };
        let stop = if entries.len() - start > max_entries {
            start + max_entries
        } else {
            entries.len()
        };
        let ghost page = page_range(es, start_after, max_entries as nat);
        assert(page =~= es.subrange(start as int, stop as int));
        let mut out: Vec<NfsDirEntry> = Vec::new();
        let mut k: usize = start;
        while k < stop
            invariant
                self.wf(),
                base.wf(),
                start <= k <= stop <= entries.len(),
                es == entries_view(entries@),
                page == es.subrange(start as int, stop as int),
                page == page_range(es, start_after, max_entries as nat),
                self@ == old(self)@.readdir(dirid, base@).0,
                old(self)@.readdir(dirid, base@).1 == Ok::<Seq<(u64, Seq<char>, ItemType)>, OverlayError>(es),
                out.len() == k - start,
                forall|j: int| 0 <= j < k - start ==> (#[trigger] self@.getattr(page[j].0, base@)) is Ok,
                forall|j: int|
                    0 <= j < k - start ==> #[trigger] nfs_entry_view(out@[j]) == (
                        page[j].0,
                        encode_utf8(page[j].1),
                        spec_fattr(self@.getattr(page[j].0, base@).unwrap()),
                    ),
            decreases stop - k,
        {
            let e = &entries[k];
            assert(page[k - start] == entry_view(entries@[k as int]));
            let a = match self.inner.getattr(e.inode_id, base) {
                Ok(a) => a,
                Err(_) => {
                    assert(!((self@.getattr(page[k - start].0, base@)) is Ok));
                    assert(page_entries(self@, page, base@) is None);
                    return Err(NfsStatus::Io);
                },
            };
            out.push(NfsDirEntry { fileid: e.inode_id, name: bytes_of(&e.name), attr: attrs_to_fattr3(&a) });
            k = k + 1;
        }
        let end = out.len() < max_entries;
        let ghost want = page_entries(self@, page, base@).unwrap();
        assert(nfs_entries_view(out@) =~= want);
        Ok(ReadDirPage { entries: out, end })
    }
}

/// The position just after the first entry with file id `id`, or the length
/// when there is none.
fn find_start(entries: &Vec<DirEntry>, id: u64) -> (r: usize)
    ensures
        r == first_after(entries_view(entries@), id),
        r <= entries.len(),
{
    let ghost es = entries_view(entries@);
    let mut i: usize = 0;
    assert(es.skip(0) =~= es);
    while i < entries.len()
        invariant
            i <= entries.len(),
            es == entries_view(entries@),
            first_after(es, id) == i + first_after(es.skip(i as int), id),
        decreases entries.len() - i,
    {
        let ghost rest = es.skip(i as int);
        assert(rest[0] == entry_view(entries@[i as int]));
        assert(rest.skip(1) =~= es.skip(i + 1));
        if entries[i].inode_id == id {
            return i + 1;
        }
        i = i + 1;
    }
    assert(es.skip(i as int).len() == 0);
    i
}

} // verus!

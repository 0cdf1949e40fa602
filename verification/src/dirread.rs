//! Directory entries as the walker sees them, whatever backend read them. A
//! backend declares [`Caps`] once; entries carry attributes as negotiated
//! `Option`s, so that the walker never sees a platform.

use crate::bytes::{unsigned64, values64};
use crate::parse::{
    linux_dirents, linux_records, mac_attrbulk, mac_records, win_id_both, win_records,
    RawLinuxEntry, RawLinuxView, RawMacEntry, RawMacView, RawWinEntry, RawWinView,
};
use crate::text::{lemma_views_push, views};
use vstd::prelude::*;
use vstd::slice::slice_subrange;

verus! {

/// What a backend hands back cheaply, declared once.
#[derive(Debug, Clone, Copy, PartialEq, Eq)]
pub struct Caps {
    pub size: bool,
    pub mtime: bool,
    pub ino: bool,
    /// The backend reports cloud-placeholder status inline.
    pub cloud: bool,
}

/// What an entry is.
#[derive(Debug, Clone, Copy, PartialEq, Eq, Structural)]
pub enum FileKind {
    File,
    Dir,
    /// Symlinks and reparse points are never descended.
    Symlink,
    Other,
}

/// One directory entry. A field is `Some` where the backend gave it for free;
/// the fill pass completes only what is missing.
#[derive(Debug, PartialEq, Eq)]
pub struct Entry {
    pub name: String,
    pub kind: FileKind,
    /// Logical size.
    pub len: Option<u64>,
    /// Modification time, in nanoseconds since the Unix epoch.
    pub mtime: Option<i128>,
    pub ino: Option<(u64, u64)>,
    pub cloud: Option<bool>,
}

/// The view of an [`Entry`].
pub struct EntryView {
    pub name: Seq<char>,
    pub kind: FileKind,
    pub len: Option<u64>,
    pub mtime: Option<i128>,
    pub ino: Option<(u64, u64)>,
    pub cloud: Option<bool>,
}

impl View for Entry {
    type V = EntryView;

    open spec fn view(&self) -> EntryView {
        EntryView {
            name: self.name@,
            kind: self.kind,
            len: self.len,
            mtime: self.mtime,
            ino: self.ino,
            cloud: self.cloud,
        }
    }
}

impl Clone for Entry {
    fn clone(&self) -> (r: Self)
        ensures
            r@ == self@,
    {
        Entry {
            name: self.name.clone(),
            kind: self.kind,
            len: self.len,
            mtime: self.mtime,
            ino: self.ino,
            cloud: self.cloud,
        }
    }
}

/// `e` has the attributes that `caps` promise, and no others. (A size is
/// promised for files.)
pub open spec fn honours(e: EntryView, caps: Caps) -> bool {
    &&& e.kind is File ==> (e.len is Some <==> caps.size)
    &&& e.len is Some ==> caps.size
    &&& e.mtime is Some <==> caps.mtime
    &&& e.ino is Some <==> caps.ino
    &&& e.cloud is Some <==> caps.cloud
}

/// What the portable backend gives: the type alone.
pub fn std_caps() -> (r: Caps)
    ensures
        r == (Caps { size: false, mtime: false, ino: false, cloud: false }),
{
    Caps { size: false, mtime: false, ino: false, cloud: false }
}

/// What getdents64 gives: type and inode number. No cloud placeholders exist
/// there, so that is establishable as a constant.
pub fn linux_caps() -> (r: Caps)
    ensures
        r == (Caps { size: false, mtime: false, ino: true, cloud: true }),
{
    Caps { size: false, mtime: false, ino: true, cloud: true }
}

/// What getattrlistbulk gives: everything.
pub fn mac_caps() -> (r: Caps)
    ensures
        r == (Caps { size: true, mtime: true, ino: true, cloud: true }),
{
    Caps { size: true, mtime: true, ino: true, cloud: true }
}

/// What NtQueryDirectoryFile gives. The file id is inline but the volume id is
/// not, so there is no identity.
pub fn win_caps() -> (r: Caps)
    ensures
        r == (Caps { size: true, mtime: true, ino: false, cloud: true }),
{
    Caps { size: true, mtime: true, ino: false, cloud: true }
}

/// What `std::fs::FileType` says of an entry.
#[derive(Debug, Clone, Copy, PartialEq, Eq)]
pub struct StdType {
    pub is_symlink: bool,
    pub is_dir: bool,
    pub is_file: bool,
}

/// The kind of an entry of the portable backend; one whose type cannot be read
/// is `Other`.
pub open spec fn std_kind(t: Option<StdType>) -> FileKind {
    match t {
        None => FileKind::Other,
        Some(t) => if t.is_symlink {
            FileKind::Symlink
        } else if t.is_dir {
            FileKind::Dir
        } else if t.is_file {
            FileKind::File
        } else {
            FileKind::Other
        },
    }
}

/// An entry of the portable backend.
pub fn std_entry(name: String, file_type: Option<StdType>) -> (r: Entry)
    ensures
        r@ == (EntryView {
            name: name@,
            kind: std_kind(file_type),
            len: None,
            mtime: None,
            ino: None,
            cloud: None,
        }),
{
    let kind = match file_type {
        None => FileKind::Other,
        Some(t) => {
            if t.is_symlink {
                FileKind::Symlink
            } else if t.is_dir {
                FileKind::Dir
            } else if t.is_file {
                FileKind::File
            } else {
                FileKind::Other
            }
        },
    };
    Entry { name, kind, len: None, mtime: None, ino: None, cloud: None }
}

/// `d_type` of a directory.
pub const DT_DIR: u8 = 4;

/// `d_type` of a regular file.
pub const DT_REG: u8 = 8;

/// `d_type` of a symbolic link.
pub const DT_LNK: u8 = 10;

/// The kind that a `d_type` states. Unknown and exotic types are left to the
/// fill pass.
pub open spec fn linux_kind(d_type: u8) -> FileKind {
    if d_type == DT_REG {
        FileKind::File
    } else if d_type == DT_DIR {
        FileKind::Dir
    } else if d_type == DT_LNK {
        FileKind::Symlink
    } else {
        FileKind::Other
    }
}

/// The entry for a getdents64 record of a directory on the device `dev`.
pub open spec fn linux_entry_of(raw: RawLinuxView, dev: u64) -> EntryView {
    EntryView {
        name: raw.name,
        kind: linux_kind(raw.d_type),
        len: None,
        mtime: None,
        ino: Some((dev, raw.ino)),
        cloud: Some(false),
    }
}

/// The entry for a getdents64 record of a directory on the device `dev`.
pub fn linux_entry(raw: RawLinuxEntry, dev: u64) -> (r: Entry)
    ensures
        r@ == linux_entry_of(raw@, dev),
{
    let kind = if raw.d_type == DT_REG {
        FileKind::File
    } else if raw.d_type == DT_DIR {
        FileKind::Dir
    } else if raw.d_type == DT_LNK {
        FileKind::Symlink
    } else {
        FileKind::Other
    };
    let ino = Some((dev, raw.ino));
    Entry { name: raw.name, kind, len: None, mtime: None, ino, cloud: Some(false) }
}

/// The entries for records, in order.
pub open spec fn linux_entries_of(raw: Seq<RawLinuxView>, dev: u64) -> Seq<EntryView> {
    Seq::new(raw.len(), |i: int| linux_entry_of(raw[i], dev))
}

/// Appends the entries of one getdents64 buffer.
pub fn append_linux_entries(entries: &mut Vec<Entry>, buf: &[u8], dev: u64)
    ensures
        views(final(entries)@) == views(old(entries)@) + linux_entries_of(
            linux_records(buf@, 0),
            dev,
        ),
{
    let raw = linux_dirents(buf);
    let ghost start = views(entries@);
    let ghost all = linux_entries_of(views(raw@), dev);
    let ghost records = raw@;
    assert(views(entries@) =~= start + all.take(0));
    for record in it: raw
        invariant
            it.seq() == records,
            all == linux_entries_of(views(records), dev),
            views(entries@) == start + all.take(it.index() as int),
    {
        broadcast use lemma_views_push;

        entries.push(linux_entry(record, dev));
        assert(views(entries@) =~= start + all.take(it.index() as int + 1));
    }
    assert(all.take(all.len() as int) =~= all);
}

/// `fsobj_type_t` of a regular file.
pub const VREG: u32 = 1;

/// `fsobj_type_t` of a directory.
pub const VDIR: u32 = 2;

/// `fsobj_type_t` of a symbolic link.
pub const VLNK: u32 = 5;

/// The flag of a dataless (cloud-evicted) placeholder, which is never
/// materialized.
pub const SF_DATALESS: u32 = 0x4000_0000;

/// The kind that an object type states.
pub open spec fn mac_kind(objtype: u32) -> FileKind {
    if objtype == VREG {
        FileKind::File
    } else if objtype == VDIR {
        FileKind::Dir
    } else if objtype == VLNK {
        FileKind::Symlink
    } else {
        FileKind::Other
    }
}

/// The nanoseconds of a record's modification time: 32 bits of the field.
pub open spec fn mac_nanos(raw: RawMacView) -> int {
    (if raw.mtime_nsec < 0 {
        raw.mtime_nsec + values64()
    } else {
        raw.mtime_nsec as int
    }) % 0x1_0000_0000
}

/// The modification time of a record is one that the system clock can hold.
pub open spec fn mac_time_fits(raw: RawMacView) -> bool {
    0 <= raw.mtime_sec && raw.mtime_sec + mac_nanos(raw) / 1_000_000_000 <= i64::MAX
}

/// The size of a record's file, where it has one.
pub open spec fn mac_len(raw: RawMacView) -> Option<u64> {
    match raw.data_length {
        Some(n) => if n < 0 {
            Some((n + values64()) as u64)
        } else {
            Some(n as u64)
        },
        None => None,
    }
}

/// The entry for a getattrlistbulk record of a directory on the device `dev`.
pub open spec fn mac_entry_of(raw: RawMacView, dev: u64) -> EntryView {
    EntryView {
        name: raw.name,
        kind: mac_kind(raw.objtype),
        len: mac_len(raw),
        mtime: Some((raw.mtime_sec * 1_000_000_000 + mac_nanos(raw)) as i128),
        ino: Some((dev, raw.file_id)),
        cloud: Some(raw.flags & SF_DATALESS != 0),
    }
}

fn nanos_of(raw: &RawMacEntry) -> (r: u32)
    ensures
        r == mac_nanos(raw@),
{
    (unsigned64(raw.mtime_nsec) % 0x1_0000_0000) as u32
}

/// Whether the modification time of a record is one that the system clock can
/// hold.
pub fn mac_time_is_valid(raw: &RawMacEntry) -> (r: bool)
    ensures
        r == mac_time_fits(raw@),
{
    let carry: i64 = (nanos_of(raw) / 1_000_000_000) as i64;
    0 <= raw.mtime_sec && raw.mtime_sec <= i64::MAX - carry
}

/// The entry for a getattrlistbulk record of a directory on the device `dev`.
pub fn mac_entry(raw: RawMacEntry, dev: u64) -> (r: Entry)
    requires
        mac_time_fits(raw@),
    ensures
        r@ == mac_entry_of(raw@, dev),
{
    let kind = if raw.objtype == VREG {
        FileKind::File
    } else if raw.objtype == VDIR {
        FileKind::Dir
    } else if raw.objtype == VLNK {
        FileKind::Symlink
    } else {
        FileKind::Other
    };
    let nanos: u32 = nanos_of(&raw);
    let mtime: i128 = raw.mtime_sec as i128 * 1_000_000_000 + nanos as i128;
    let len = match raw.data_length {
        Some(n) => Some(unsigned64(n)),
        None => None,
    };
    let ino = Some((dev, raw.file_id));
    let cloud = Some(raw.flags & SF_DATALESS != 0);
    Entry { name: raw.name, kind, len, mtime: Some(mtime), ino, cloud }
}

/// How many of the first records have a modification time that can be held.
pub open spec fn held_times(raw: Seq<RawMacView>) -> nat
    decreases raw.len(),
{
    if raw.len() == 0 || !mac_time_fits(raw[0]) {
        0
    } else {
        1 + held_times(raw.skip(1))
    }
}

proof fn lemma_held_times(raw: Seq<RawMacView>, n: int)
    requires
        0 <= n <= raw.len(),
        forall|i: int| 0 <= i < n ==> mac_time_fits(#[trigger] raw[i]),
        n == raw.len() || !mac_time_fits(raw[n]),
    ensures
        held_times(raw) == n,
    decreases n,
{
    if n > 0 {
        let rest = raw.skip(1);
        assert(mac_time_fits(raw[0]));
        assert forall|i: int| 0 <= i < n - 1 implies mac_time_fits(#[trigger] rest[i]) by {
            assert(rest[i] == raw[i + 1]);
        }
        lemma_held_times(rest, n - 1);
    }
}

/// The entries for records, in order.
pub open spec fn mac_entries_of(raw: Seq<RawMacView>, dev: u64) -> Seq<EntryView> {
    Seq::new(raw.len(), |i: int| mac_entry_of(raw[i], dev))
}

/// Appends the entries of the `count` records of one getattrlistbulk buffer, of a
/// directory on the device `dev`. Stops at a record whose modification time the
/// system clock cannot hold, and says whether there was none.
pub fn append_mac_entries(entries: &mut Vec<Entry>, buf: &[u8], count: usize, dev: u64) -> (r:
    bool)
    ensures
        ({
            let raw = mac_records(buf@, 0, count as int);
            &&& r == (held_times(raw) == raw.len())
            &&& views(final(entries)@) == views(old(entries)@) + mac_entries_of(
                raw.take(held_times(raw) as int),
                dev,
            )
        }),
{
    let raw = mac_attrbulk(buf, count);
    let n: usize = raw.len();
    let ghost start = views(entries@);
    let ghost records = raw@;
    let ghost all = views(records);
    let mut done: usize = 0;
    assert(views(entries@) =~= start + mac_entries_of(all.take(0), dev));
    for record in it: raw
        invariant
            it.seq() == records,
            records.len() == n,
            all == views(records),
            all == mac_records(buf@, 0, count as int),
            done == it.index(),
            forall|i: int| 0 <= i < done ==> mac_time_fits(#[trigger] all[i]),
            start == views(old(entries)@),
            views(entries@) == start + mac_entries_of(all.take(done as int), dev),
    {
        broadcast use lemma_views_push;

        assert(all[done as int] == record@);
        if !mac_time_is_valid(&record) {
            proof {
                lemma_held_times(all, done as int);
            }
            return false;
        }
        entries.push(mac_entry(record, dev));
        assert(views(entries@) =~= start + mac_entries_of(all.take(done + 1), dev));
        done += 1;
    }
    proof {
        lemma_held_times(all, done as int);
    }
    true
}

pub const FILE_ATTRIBUTE_DIRECTORY: u32 = 0x10;

pub const FILE_ATTRIBUTE_REPARSE_POINT: u32 = 0x400;

/// Cloud placeholders: OFFLINE, RECALL_ON_OPEN or RECALL_ON_DATA_ACCESS.
pub const CLOUD_ATTRS: u32 = 0x0044_1000;

/// From the FILETIME epoch (1601-01-01) to the Unix epoch, in ticks of 100 ns.
pub const EPOCH_DELTA_100NS: i64 = 116_444_736_000_000_000;

/// The kind that file attributes state: a junction or symlink is never a
/// directory to descend.
pub open spec fn win_kind(attributes: u32) -> FileKind {
    if attributes & FILE_ATTRIBUTE_REPARSE_POINT != 0 {
        FileKind::Symlink
    } else if attributes & FILE_ATTRIBUTE_DIRECTORY != 0 {
        FileKind::Dir
    } else {
        FileKind::File
    }
}

/// A FILETIME in nanoseconds since the Unix epoch; one before it counts as it.
pub open spec fn filetime_nanos(t: i64) -> int {
    if t < EPOCH_DELTA_100NS {
        0
    } else {
        (t - EPOCH_DELTA_100NS) * 100
    }
}

/// The entry for a FILE_ID_BOTH_DIR_INFORMATION record.
pub open spec fn win_entry_of(raw: RawWinView) -> EntryView {
    EntryView {
        name: raw.name,
        kind: win_kind(raw.attributes),
        len: if raw.end_of_file < 0 {
            Some((raw.end_of_file + values64()) as u64)
        } else {
            Some(raw.end_of_file as u64)
        },
        mtime: Some(filetime_nanos(raw.last_write_time) as i128),
        ino: None,
        cloud: Some(raw.attributes & CLOUD_ATTRS != 0),
    }
}

/// The entry for a FILE_ID_BOTH_DIR_INFORMATION record.
pub fn win_entry(raw: RawWinEntry) -> (r: Entry)
    ensures
        r@ == win_entry_of(raw@),
{
    let kind = if raw.attributes & FILE_ATTRIBUTE_REPARSE_POINT != 0 {
        FileKind::Symlink
    } else if raw.attributes & FILE_ATTRIBUTE_DIRECTORY != 0 {
        FileKind::Dir
    } else {
        FileKind::File
    };
    let t: i64 = raw.last_write_time;
    let mtime: i128 = if t < EPOCH_DELTA_100NS {
        0
    } else {
        (t - EPOCH_DELTA_100NS) as i128 * 100
    };
    let len = Some(unsigned64(raw.end_of_file));
    let cloud = Some(raw.attributes & CLOUD_ATTRS != 0);
    Entry { name: raw.name, kind, len, mtime: Some(mtime), ino: None, cloud }
}

/// How much of a buffer of `len` bytes a call filled that reports
/// `information` bytes: a call that reports none may have filled it all.
pub open spec fn win_filled(information: usize, len: int) -> int {
    if information == 0 || information > len {
        len
    } else {
        information as int
    }
}

/// The entries for records, in order.
pub open spec fn win_entries_of(raw: Seq<RawWinView>) -> Seq<EntryView> {
    Seq::new(raw.len(), |i: int| win_entry_of(raw[i]))
}

/// Appends the entries of one NtQueryDirectoryFile buffer, of which the call
/// reports `information` bytes as written.
pub fn append_win_entries(entries: &mut Vec<Entry>, buf: &[u8], information: usize)
    ensures
        views(final(entries)@) == views(old(entries)@) + win_entries_of(
            win_records(buf@.take(win_filled(information, buf@.len() as int)), 0),
        ),
{
    let filled: usize = if information == 0 || information > buf.len() {
        buf.len()
    } else {
        information
    };
    let written = slice_subrange(buf, 0, filled);
    assert(written@ =~= buf@.take(win_filled(information, buf@.len() as int)));
    let raw = win_id_both(written);
    let ghost start = views(entries@);
    let ghost all = win_entries_of(views(raw@));
    let ghost records = raw@;
    assert(views(entries@) =~= start + all.take(0));
    for record in it: raw
        invariant
            it.seq() == records,
            all == win_entries_of(views(records)),
            views(entries@) == start + all.take(it.index() as int),
    {
        broadcast use lemma_views_push;

        entries.push(win_entry(record));
        assert(views(entries@) =~= start + all.take(it.index() as int + 1));
    }
    assert(all.take(all.len() as int) =~= all);
}

/// Every backend's entries have what it declared and nothing else. (A record
/// of a file that getattrlistbulk returns has its length.)
pub proof fn entries_honour_caps(
    linux: RawLinuxView,
    mac: RawMacView,
    win: RawWinView,
    name: Seq<char>,
    file_type: Option<StdType>,
    dev: u64,
)
    requires
        mac.objtype == VREG ==> mac.data_length is Some,
    ensures
        honours(
            linux_entry_of(linux, dev),
            Caps { size: false, mtime: false, ino: true, cloud: true },
        ),
        honours(mac_entry_of(mac, dev), Caps { size: true, mtime: true, ino: true, cloud: true }),
        honours(win_entry_of(win), Caps { size: true, mtime: true, ino: false, cloud: true }),
        honours(
            EntryView {
                name,
                kind: std_kind(file_type),
                len: None,
                mtime: None,
                ino: None,
                cloud: None,
            },
            Caps { size: false, mtime: false, ino: false, cloud: false },
        ),
{
}

} // verus!

//! Pure parsers for the kernel-written buffers that bulk directory reads fill.
//! A malformed record ends the parse; no parser reads past its buffer.

use crate::bytes::{
    find_nul, le, lossy_text, read_i32, read_i64, read_u16, read_u32,
    read_u64, signed, until_nul, utf16_lossy, utf16_text, utf8_lossy, values32, values64,
};
use crate::text::{lemma_views_push, same_text, views};
use vstd::prelude::*;
use vstd::slice::slice_subrange;

verus! {

/// The size of the head of a `linux_dirent64` record. The head is packed: the
/// name starts at byte 19 (padded to 24 it would shear 5 bytes off every name).
pub const LINUX_HEAD: usize = 19;

/// One `linux_dirent64` record.
#[derive(Debug, PartialEq, Eq)]
pub struct RawLinuxEntry {
    pub ino: u64,
    pub d_type: u8,
    pub name: String,
}

/// The view of a [`RawLinuxEntry`].
pub struct RawLinuxView {
    pub ino: u64,
    pub d_type: u8,
    pub name: Seq<char>,
}

impl View for RawLinuxEntry {
    type V = RawLinuxView;

    open spec fn view(&self) -> RawLinuxView {
        RawLinuxView { ino: self.ino, d_type: self.d_type, name: self.name@ }
    }
}

/// The entries for a directory itself and for its parent.
pub open spec fn is_dot(name: Seq<char>) -> bool {
    name == "."@ || name == ".."@
}

fn is_dot_name(name: &str) -> (r: bool)
    ensures
        r == is_dot(name@),
{
    same_text(name, ".") || same_text(name, "..")
}

/// The length that the record at `off` declares.
pub open spec fn linux_reclen(buf: Seq<u8>, off: int) -> int {
    le(buf, off + 16, 2) as int
}

/// A record starts at `off` and ends inside the buffer.
pub open spec fn linux_record_fits(buf: Seq<u8>, off: int) -> bool {
    &&& off + LINUX_HEAD <= buf.len()
    &&& LINUX_HEAD <= linux_reclen(buf, off)
    &&& off + linux_reclen(buf, off) <= buf.len()
}

/// The record at `off`: inode number at 0, type at 18, the name from 19 up to
/// a zero byte or the record's end.
pub open spec fn linux_record(buf: Seq<u8>, off: int) -> RawLinuxView {
    RawLinuxView {
        ino: le(buf, off, 8) as u64,
        d_type: buf[off + 18],
        name: lossy_text(
            until_nul(buf.subrange(off + LINUX_HEAD, off + linux_reclen(buf, off))),
        ),
    }
}

/// The records from `off` on, up to the first that does not fit, without `.`
/// and `..`.
pub open spec fn linux_records(buf: Seq<u8>, off: int) -> Seq<RawLinuxView>
    decreases buf.len() - off,
{
    if !linux_record_fits(buf, off) {
        seq![]
    } else {
        let record = linux_record(buf, off);
        let rest = linux_records(buf, off + linux_reclen(buf, off));
        if is_dot(record.name) {
            rest
        } else {
            seq![record] + rest
        }
    }
}

/// Parses a getdents64 output buffer. Skips `.` and `..`. A malformed record
/// terminates the parse: fail closed, never overread.
pub fn linux_dirents(buf: &[u8]) -> (r: Vec<RawLinuxEntry>)
    ensures
        views(r@) == linux_records(buf@, 0),
{
    let mut out: Vec<RawLinuxEntry> = Vec::new();
    let mut off: usize = 0;
    let n: usize = buf.len();
    assert(views(out@) + linux_records(buf@, 0) =~= linux_records(buf@, 0));
    loop
        invariant
            n == buf@.len(),
            off <= n,
            views(out@) + linux_records(buf@, off as int) == linux_records(buf@, 0),
        decreases n - off,
    {
        broadcast use lemma_views_push;

        if n - off < LINUX_HEAD {
            assert(views(out@) =~= views(out@) + linux_records(buf@, off as int));
            return out;
        }
        let reclen: usize = read_u16(buf, off + 16) as usize;
        if reclen < LINUX_HEAD || reclen > n - off {
            assert(views(out@) =~= views(out@) + linux_records(buf@, off as int));
            return out;  // malformed record: stop, never overread
        }
        let ino: u64 = read_u64(buf, off);
        let d_type: u8 = buf[off + 18];
        let end: usize = find_nul(buf, off + LINUX_HEAD, off + reclen);
        let name = utf8_lossy(slice_subrange(buf, off + LINUX_HEAD, end));
        let ghost before = views(out@);
        let ghost record = linux_record(buf@, off as int);
        if !is_dot_name(name.as_str()) {
            let entry = RawLinuxEntry { ino, d_type, name };
            assert(entry@ == record);
            out.push(entry);
            assert(views(out@) + linux_records(buf@, off + reclen) =~= before + (seq![record]
                + linux_records(buf@, off + reclen)));
        }
        off = off + reclen;
    }
}

/// No entry is `.` or `..`.
pub proof fn linux_records_skip_dots(buf: Seq<u8>, off: int)
    ensures
        forall|i: int|
            0 <= i < linux_records(buf, off).len() ==> !is_dot(
                (#[trigger] linux_records(buf, off)[i]).name,
            ),
    decreases buf.len() - off,
{
    if linux_record_fits(buf, off) {
        let next = off + linux_reclen(buf, off);
        let all = linux_records(buf, off);
        let rest = linux_records(buf, next);
        linux_records_skip_dots(buf, next);
        assert forall|i: int| 0 <= i < all.len() implies !is_dot((#[trigger] all[i]).name) by {
            if !is_dot(linux_record(buf, off).name) {
                assert(i > 0 ==> all[i] == rest[i - 1]);
            } else {
                assert(all[i] == rest[i]);
            }
        }
    }
}

/// One getattrlistbulk record, its fields in the canonical packing order: name,
/// object type, modification time, flags, file id, data length.
#[derive(Debug, PartialEq, Eq)]
pub struct RawMacEntry {
    pub name: String,
    pub objtype: u32,
    pub mtime_sec: i64,
    pub mtime_nsec: i64,
    pub flags: u32,
    pub file_id: u64,
    /// ATTR_FILE_DATALENGTH: present for files only.
    pub data_length: Option<i64>,
}

/// The view of a [`RawMacEntry`].
pub struct RawMacView {
    pub name: Seq<char>,
    pub objtype: u32,
    pub mtime_sec: i64,
    pub mtime_nsec: i64,
    pub flags: u32,
    pub file_id: u64,
    pub data_length: Option<i64>,
}

impl View for RawMacEntry {
    type V = RawMacView;

    open spec fn view(&self) -> RawMacView {
        RawMacView {
            name: self.name@,
            objtype: self.objtype,
            mtime_sec: self.mtime_sec,
            mtime_nsec: self.mtime_nsec,
            flags: self.flags,
            file_id: self.file_id,
            data_length: self.data_length,
        }
    }
}

pub const ATTR_CMN_NAME: u32 = 0x0000_0001;

pub const ATTR_CMN_OBJTYPE: u32 = 0x0000_0008;

pub const ATTR_CMN_MODTIME: u32 = 0x0000_0400;

/// Not 0x40: that is OBJPERMANENTID, and asking for it shifts the whole record.
pub const ATTR_CMN_FLAGS: u32 = 0x0004_0000;

pub const ATTR_CMN_FILEID: u32 = 0x0200_0000;

pub const ATTR_CMN_RETURNED_ATTRS: u32 = 0x8000_0000;

pub const ATTR_FILE_DATALENGTH: u32 = 0x0000_0200;

/// The record's length and the set of attributes that it returns.
pub const MAC_HEAD: usize = 24;

/// The common attributes that a record returns.
pub open spec fn mac_common(record: Seq<u8>) -> u32 {
    le(record, 4, 4) as u32
}

/// The file attributes that a record returns.
pub open spec fn mac_fileattr(record: Seq<u8>) -> u32 {
    le(record, 16, 4) as u32
}

/// The room that a field of `size` bytes takes where it is present.
pub open spec fn room(present: bool, size: int) -> int {
    if present {
        size
    } else {
        0
    }
}

/// Where the object type stands, or would stand.
pub open spec fn mac_objtype_at(common: u32) -> int {
    MAC_HEAD + room(common & ATTR_CMN_NAME != 0, 8)
}

/// Where the modification time stands, or would stand.
pub open spec fn mac_modtime_at(common: u32) -> int {
    mac_objtype_at(common) + room(common & ATTR_CMN_OBJTYPE != 0, 4)
}

/// Where the flags stand, or would stand.
pub open spec fn mac_flags_at(common: u32) -> int {
    mac_modtime_at(common) + room(common & ATTR_CMN_MODTIME != 0, 16)
}

/// Where the file id stands, or would stand.
pub open spec fn mac_fileid_at(common: u32) -> int {
    mac_flags_at(common) + room(common & ATTR_CMN_FLAGS != 0, 4)
}

/// Where the data length stands, or would stand.
pub open spec fn mac_length_at(common: u32) -> int {
    mac_fileid_at(common) + room(common & ATTR_CMN_FILEID != 0, 8)
}

/// Where the fixed fields end.
pub open spec fn mac_fixed_end(common: u32, fileattr: u32) -> int {
    mac_length_at(common) + room(fileattr & ATTR_FILE_DATALENGTH != 0, 8)
}

/// The name that the reference at the start of the fields points to: its bytes
/// start that far from the reference, and end at a zero byte or with the
/// record. A reference out of the record names nothing.
pub open spec fn mac_name(record: Seq<u8>) -> Seq<char> {
    let start = MAC_HEAD + signed(le(record, MAC_HEAD as int, 4) as int, values32());
    if 0 <= start < record.len() {
        lossy_text(until_nul(record.subrange(start, record.len() as int)))
    } else {
        seq![]
    }
}

/// The fields of one record, or `None` where the record is too short for the
/// attributes that it declares. What it does not return is zero.
pub open spec fn mac_record(record: Seq<u8>) -> Option<RawMacView> {
    let common = mac_common(record);
    let fileattr = mac_fileattr(record);
    if record.len() < MAC_HEAD || record.len() < mac_fixed_end(common, fileattr) {
        None
    } else {
        Some(
            RawMacView {
                name: if common & ATTR_CMN_NAME != 0 {
                    mac_name(record)
                } else {
                    seq![]
                },
                objtype: if common & ATTR_CMN_OBJTYPE != 0 {
                    le(record, mac_objtype_at(common), 4) as u32
                } else {
                    0
                },
                mtime_sec: if common & ATTR_CMN_MODTIME != 0 {
                    signed(le(record, mac_modtime_at(common), 8) as int, values64()) as i64
                } else {
                    0
                },
                mtime_nsec: if common & ATTR_CMN_MODTIME != 0 {
                    signed(le(record, mac_modtime_at(common) + 8, 8) as int, values64()) as i64
                } else {
                    0
                },
                flags: if common & ATTR_CMN_FLAGS != 0 {
                    le(record, mac_flags_at(common), 4) as u32
                } else {
                    0
                },
                file_id: if common & ATTR_CMN_FILEID != 0 {
                    le(record, mac_fileid_at(common), 8) as u64
                } else {
                    0
                },
                data_length: if fileattr & ATTR_FILE_DATALENGTH != 0 {
                    Some(signed(le(record, mac_length_at(common), 8) as int, values64()) as i64)
                } else {
                    None
                },
            },
        )
    }
}

/// At most `count` records from `base` on, up to the first that is malformed.
pub open spec fn mac_records(buf: Seq<u8>, base: int, count: int) -> Seq<RawMacView>
    decreases count,
{
    let length = le(buf, base, 4) as int;
    if count <= 0 || base + 4 > buf.len() || length < 4 || base + length > buf.len() {
        seq![]
    } else {
        match mac_record(buf.subrange(base, base + length)) {
            Some(record) => seq![record] + mac_records(buf, base + length, count - 1),
            None => seq![],
        }
    }
}

fn read_mac_name(record: &[u8]) -> (r: String)
    requires
        record@.len() >= MAC_HEAD + 8,
    ensures
        r@ == mac_name(record@),
{
    let len: usize = record.len();
    let data_off: i32 = read_i32(record, MAC_HEAD);
    let start: i64 = MAC_HEAD as i64 + data_off as i64;
    if start >= 0 && (start as u64) < len as u64 {
        let start: usize = start as usize;
        let end: usize = find_nul(record, start, len);
        utf8_lossy(slice_subrange(record, start, end))
    } else {
        String::new()
    }
}

fn read_mac_record(record: &[u8]) -> (r: Option<RawMacEntry>)
    ensures
        r is Some <==> mac_record(record@) is Some,
        r matches Some(entry) ==> mac_record(record@) == Some(entry@),
{
    let len: usize = record.len();
    if len < MAC_HEAD {
        return None;
    }
    let common: u32 = read_u32(record, 4);
    let fileattr: u32 = read_u32(record, 16);
    let has_name = common & ATTR_CMN_NAME != 0;
    let has_objtype = common & ATTR_CMN_OBJTYPE != 0;
    let has_modtime = common & ATTR_CMN_MODTIME != 0;
    let has_flags = common & ATTR_CMN_FLAGS != 0;
    let has_fileid = common & ATTR_CMN_FILEID != 0;
    let has_length = fileattr & ATTR_FILE_DATALENGTH != 0;
    let objtype_at: usize = MAC_HEAD + (if has_name { 8 } else { 0 });
    let modtime_at: usize = objtype_at + (if has_objtype { 4 } else { 0 });
    let flags_at: usize = modtime_at + (if has_modtime { 16 } else { 0 });
    let fileid_at: usize = flags_at + (if has_flags { 4 } else { 0 });
    let length_at: usize = fileid_at + (if has_fileid { 8 } else { 0 });
    let fixed_end: usize = length_at + (if has_length { 8 } else { 0 });
    if len < fixed_end {
        return None;
    }
    let name = if has_name {
        read_mac_name(record)
    } else {
        String::new()
    };
    let objtype: u32 = if has_objtype {
        read_u32(record, objtype_at)
    } else {
        0
    };
    let mtime_sec: i64 = if has_modtime {
        read_i64(record, modtime_at)
    } else {
        0
    };
    let mtime_nsec: i64 = if has_modtime {
        read_i64(record, modtime_at + 8)
    } else {
        0
    };
    let flags: u32 = if has_flags {
        read_u32(record, flags_at)
    } else {
        0
    };
    let file_id: u64 = if has_fileid {
        read_u64(record, fileid_at)
    } else {
        0
    };
    let data_length: Option<i64> = if has_length {
        Some(read_i64(record, length_at))
    } else {
        None
    };
    let entry = RawMacEntry { name, objtype, mtime_sec, mtime_nsec, flags, file_id, data_length };
    Some(entry)
}

/// Parses `count` getattrlistbulk records. A record whose declared length
/// overruns the buffer, or that is too short for what it declares, terminates
/// the parse (fail closed).
pub fn mac_attrbulk(buf: &[u8], count: usize) -> (r: Vec<RawMacEntry>)
    ensures
        views(r@) == mac_records(buf@, 0, count as int),
{
    let mut out: Vec<RawMacEntry> = Vec::new();
    let n: usize = buf.len();
    let mut base: usize = 0;
    let mut left: usize = count;
    assert(views(out@) + mac_records(buf@, 0, count as int) =~= mac_records(buf@, 0, count as int));
    loop
        invariant
            n == buf@.len(),
            base <= n,
            views(out@) + mac_records(buf@, base as int, left as int) == mac_records(
                buf@,
                0,
                count as int,
            ),
        decreases left,
    {
        broadcast use lemma_views_push;

        if left == 0 || n - base < 4 {
            assert(views(out@) =~= views(out@) + mac_records(buf@, base as int, left as int));
            return out;
        }
        let length: u32 = read_u32(buf, base);
        if length < 4 || length as u64 > (n - base) as u64 {
            assert(views(out@) =~= views(out@) + mac_records(buf@, base as int, left as int));
            return out;
        }
        let length: usize = length as usize;
        let ghost before = views(out@);
        let ghost rest = mac_records(buf@, base + length, left - 1);
        match read_mac_record(slice_subrange(buf, base, base + length)) {
            Some(entry) => {
                let ghost record = entry@;
                out.push(entry);
                assert(views(out@) + rest =~= before + (seq![record] + rest));
            },
            None => {
                assert(views(out@) =~= views(out@) + mac_records(buf@, base as int, left as int));
                return out;
            },
        }
        base = base + length;
        left = left - 1;
    }
}

/// The size of the head of a FILE_ID_BOTH_DIR_INFORMATION record: the name
/// starts at byte 104.
pub const WIN_HEAD: usize = 104;

/// One FILE_ID_BOTH_DIR_INFORMATION record.
#[derive(Debug, PartialEq, Eq)]
pub struct RawWinEntry {
    pub name: String,
    pub attributes: u32,
    pub end_of_file: i64,
    /// FILETIME ticks.
    pub last_write_time: i64,
    pub file_id: i64,
}

/// The view of a [`RawWinEntry`].
pub struct RawWinView {
    pub name: Seq<char>,
    pub attributes: u32,
    pub end_of_file: i64,
    pub last_write_time: i64,
    pub file_id: i64,
}

impl View for RawWinEntry {
    type V = RawWinView;

    open spec fn view(&self) -> RawWinView {
        RawWinView {
            name: self.name@,
            attributes: self.attributes,
            end_of_file: self.end_of_file,
            last_write_time: self.last_write_time,
            file_id: self.file_id,
        }
    }
}

/// The length in bytes that the record at `off` declares for its name.
pub open spec fn win_name_len(buf: Seq<u8>, off: int) -> int {
    le(buf, off + 60, 4) as int
}

/// The distance that the record at `off` declares to the next.
pub open spec fn win_next(buf: Seq<u8>, off: int) -> int {
    le(buf, off, 4) as int
}

/// A record starts at `off` and its name ends inside the buffer.
pub open spec fn win_record_fits(buf: Seq<u8>, off: int) -> bool {
    &&& off + WIN_HEAD <= buf.len()
    &&& off + WIN_HEAD + win_name_len(buf, off) <= buf.len()
}

/// The UTF-16 units of the name of the record at `off`.
pub open spec fn win_name_units(buf: Seq<u8>, off: int) -> Seq<u16> {
    Seq::new(
        (win_name_len(buf, off) / 2) as nat,
        |i: int| le(buf, off + WIN_HEAD + 2 * i, 2) as u16,
    )
}

/// The record at `off`: last write time at 24, size at 40, attributes at 56,
/// file id at 96, the name from 104 on.
pub open spec fn win_record(buf: Seq<u8>, off: int) -> RawWinView {
    RawWinView {
        name: utf16_text(win_name_units(buf, off)),
        attributes: le(buf, off + 56, 4) as u32,
        end_of_file: signed(le(buf, off + 40, 8) as int, values64()) as i64,
        last_write_time: signed(le(buf, off + 24, 8) as int, values64()) as i64,
        file_id: signed(le(buf, off + 96, 8) as int, values64()) as i64,
    }
}

/// The chain of records from `off` on, without `.` and `..`, up to one that
/// does not fit, has no next, or has a next that overlaps it or lies beyond the
/// buffer.
pub open spec fn win_records(buf: Seq<u8>, off: int) -> Seq<RawWinView>
    decreases buf.len() - off,
{
    if !win_record_fits(buf, off) {
        seq![]
    } else {
        let record = win_record(buf, off);
        let rest = if win_next(buf, off) < WIN_HEAD || off + win_next(buf, off) > buf.len() {
            seq![]
        } else {
            win_records(buf, off + win_next(buf, off))
        };
        if is_dot(record.name) {
            rest
        } else {
            seq![record] + rest
        }
    }
}

fn read_win_name(buf: &[u8], off: usize) -> (r: String)
    requires
        win_record_fits(buf@, off as int),
    ensures
        r@ == win_record(buf@, off as int).name,
{
    let n: usize = buf.len();
    let name_len: usize = read_u32(buf, off + 60) as usize;
    let mut units: Vec<u16> = Vec::new();
    let mut i: usize = 0;
    while i < name_len / 2
        invariant
            n == buf@.len(),
            off + WIN_HEAD + name_len <= n,
            name_len == win_name_len(buf@, off as int),
            i <= name_len / 2,
            units@ == win_name_units(buf@, off as int).take(i as int),
        decreases name_len / 2 - i,
    {
        units.push(read_u16(buf, off + WIN_HEAD + 2 * i));
        assert(units@ =~= win_name_units(buf@, off as int).take(i + 1));
        i += 1;
    }
    assert(units@ =~= win_name_units(buf@, off as int));
    utf16_lossy(units.as_slice())
}

/// Parses a FileIdBothDirectoryInformation chain. Skips `.` and `..`; a
/// malformed offset terminates the parse (fail closed).
pub fn win_id_both(buf: &[u8]) -> (r: Vec<RawWinEntry>)
    ensures
        views(r@) == win_records(buf@, 0),
{
    let mut out: Vec<RawWinEntry> = Vec::new();
    let n: usize = buf.len();
    let mut off: usize = 0;
    assert(views(out@) + win_records(buf@, 0) =~= win_records(buf@, 0));
    loop
        invariant
            n == buf@.len(),
            off <= n,
            views(out@) + win_records(buf@, off as int) == win_records(buf@, 0),
        decreases n - off,
    {
        broadcast use lemma_views_push;

        if n - off < WIN_HEAD {
            assert(views(out@) =~= views(out@) + win_records(buf@, off as int));
            return out;
        }
        let name_len: u32 = read_u32(buf, off + 60);
        if name_len as u64 > (n - off - WIN_HEAD) as u64 {
            assert(views(out@) =~= views(out@) + win_records(buf@, off as int));
            return out;
        }
        let next: u32 = read_u32(buf, off);
        let name = read_win_name(buf, off);
        let attributes: u32 = read_u32(buf, off + 56);
        let end_of_file: i64 = read_i64(buf, off + 40);
        let last_write_time: i64 = read_i64(buf, off + 24);
        let file_id: i64 = read_i64(buf, off + 96);
        let ghost before = views(out@);
        let ghost record = win_record(buf@, off as int);
        let ghost rest = if win_next(buf@, off as int) < WIN_HEAD || off + win_next(
            buf@,
            off as int,
        ) > n {
            seq![]
        } else {
            win_records(buf@, off + win_next(buf@, off as int))
        };
        if !is_dot_name(name.as_str()) {
            let entry = RawWinEntry { name, attributes, end_of_file, last_write_time, file_id };
            assert(entry@ == record);
            out.push(entry);
            assert(views(out@) + rest =~= before + (seq![record] + rest));
        }
        assert(views(out@) + rest == win_records(buf@, 0));
        // No next record, or one that would overlap this one, or one beyond the buffer.
        if (next as u64) < WIN_HEAD as u64 || next as u64 > (n - off) as u64 {
            assert(views(out@) =~= views(out@) + rest);
            return out;
        }
        off = off + next as usize;
    }
}

/// No entry is `.` or `..`.
pub proof fn win_records_skip_dots(buf: Seq<u8>, off: int)
    ensures
        forall|i: int|
            0 <= i < win_records(buf, off).len() ==> !is_dot(
                (#[trigger] win_records(buf, off)[i]).name,
            ),
    decreases buf.len() - off,
{
    if win_record_fits(buf, off) && win_next(buf, off) >= WIN_HEAD && off + win_next(buf, off)
        <= buf.len() {
        let next = off + win_next(buf, off);
        let all = win_records(buf, off);
        let rest = win_records(buf, next);
        win_records_skip_dots(buf, next);
        assert forall|i: int| 0 <= i < all.len() implies !is_dot((#[trigger] all[i]).name) by {
            if !is_dot(win_record(buf, off).name) {
                assert(i > 0 ==> all[i] == rest[i - 1]);
            } else {
                assert(all[i] == rest[i]);
            }
        }
    }
}

} // verus!

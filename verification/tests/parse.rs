//! The parsers of kernel-written buffers.

use reaper::dirread::{
    append_linux_entries, append_mac_entries, append_win_entries, mac_entry, mac_time_is_valid, win_entry, Entry,
    FileKind,
};
use reaper::parse::{
    linux_dirents, mac_attrbulk, win_id_both, RawLinuxEntry, RawMacEntry, RawWinEntry,
    ATTR_CMN_FILEID, ATTR_CMN_FLAGS, ATTR_CMN_MODTIME, ATTR_CMN_NAME, ATTR_CMN_OBJTYPE,
    ATTR_FILE_DATALENGTH, LINUX_HEAD, WIN_HEAD,
};

/// Builds a getdents64 buffer: the exact byte layout the kernel writes,
/// including the 19-byte packed header.
fn dirent_buf(entries: &[(u64, u8, &str)]) -> Vec<u8> {
    let mut buf = Vec::new();
    for &(ino, d_type, name) in entries {
        let name_bytes = name.as_bytes();
        let reclen = (LINUX_HEAD + name_bytes.len() + 1).div_ceil(8) * 8; // kernel 8-aligns
        buf.extend_from_slice(&ino.to_le_bytes());
        buf.extend_from_slice(&0i64.to_le_bytes());
        buf.extend_from_slice(&(reclen as u16).to_le_bytes());
        buf.push(d_type);
        buf.extend_from_slice(name_bytes);
        buf.resize(buf.len() + (reclen - LINUX_HEAD - name_bytes.len()), 0);
    }
    buf
}

#[test]
fn linux_names_start_at_byte_19_not_24() {
    let buf = dirent_buf(&[
        (7, 8, "f00000.dat"),
        (8, 4, "sub"),
        (1, 4, "."),
        (2, 4, ".."),
    ]);
    let got = linux_dirents(&buf);
    assert_eq!(got.len(), 2);
    assert_eq!(
        got[0],
        RawLinuxEntry {
            ino: 7,
            d_type: 8,
            name: "f00000.dat".into()
        }
    );
    assert_eq!(got[1].name, "sub");
}

#[test]
fn linux_malformed_reclen_terminates_without_overread() {
    let mut buf = dirent_buf(&[(7, 8, "ok")]);
    let good = linux_dirents(&buf).len();
    assert_eq!(good, 1);
    // Corrupt reclen to point past the buffer: parse must stop cleanly.
    let reclen_off = 16;
    buf[reclen_off] = 0xFF;
    buf[reclen_off + 1] = 0x7F;
    assert!(linux_dirents(&buf).is_empty());
}

#[test]
fn linux_records_are_cut_short_and_read_whole() {
    let buf = dirent_buf(&[(u64::MAX, 10, "größe"), (3, 0, "b")]);
    let got = linux_dirents(&buf);
    assert_eq!(got[0].name, "größe");
    assert_eq!(got[0].ino, u64::MAX);
    assert_eq!(got[1].d_type, 0);
    // A buffer that ends inside the second record still gives the first.
    assert_eq!(linux_dirents(&buf[..buf.len() - 1]).len(), 1);
    assert!(linux_dirents(&buf[..18]).is_empty());
    assert!(linux_dirents(&[]).is_empty());
    // A record shorter than its head ends the parse.
    let mut short = dirent_buf(&[(1, 8, "x")]);
    short[16] = 18;
    assert!(linux_dirents(&short).is_empty());
}

#[test]
fn linux_names_that_are_not_utf8_are_replaced() {
    let mut buf = dirent_buf(&[(1, 8, "a?c")]);
    buf[LINUX_HEAD + 1] = 0xff;
    assert_eq!(linux_dirents(&buf)[0].name, "a\u{fffd}c");
}

#[test]
fn linux_entries_have_their_kinds() {
    let buf = dirent_buf(&[(7, 8, "f"), (8, 4, "d"), (9, 10, "l"), (10, 0, "u")]);
    let mut entries: Vec<Entry> = Vec::new();
    append_linux_entries(&mut entries, &buf, 42);
    append_linux_entries(&mut entries, &dirent_buf(&[(11, 8, "g")]), 42);
    let kinds: Vec<FileKind> = entries.iter().map(|e| e.kind).collect();
    assert_eq!(
        kinds,
        [
            FileKind::File,
            FileKind::Dir,
            FileKind::Symlink,
            FileKind::Other,
            FileKind::File
        ]
    );
    assert_eq!(
        entries[0],
        Entry {
            name: "f".into(),
            kind: FileKind::File,
            len: None,
            mtime: None,
            ino: Some((42, 7)),
            cloud: Some(false),
        }
    );
}

/// A getattrlistbulk record in the canonical packing order.
fn attrbulk_record(
    name: &str,
    objtype: u32,
    mtime: (i64, i64),
    flags: u32,
    id: u64,
    len: Option<i64>,
) -> Vec<u8> {
    let name_bytes: Vec<u8> = name.as_bytes().iter().copied().chain([0]).collect();
    let fixed = 4 + 20 + 8 + 4 + 16 + 4 + 8 + if len.is_some() { 8 } else { 0 };
    let total = (fixed + name_bytes.len()).div_ceil(4) * 4;
    let mut r = Vec::with_capacity(total);
    r.extend_from_slice(&(total as u32).to_le_bytes());
    let common =
        ATTR_CMN_NAME | ATTR_CMN_OBJTYPE | ATTR_CMN_MODTIME | ATTR_CMN_FLAGS | ATTR_CMN_FILEID;
    let fileattr = if len.is_some() {
        ATTR_FILE_DATALENGTH
    } else {
        0
    };
    for v in [common, 0, 0, fileattr, 0] {
        r.extend_from_slice(&v.to_le_bytes());
    }
    // The offset is from the reference (at 4+20=24) to the name data (at `fixed`).
    let ref_field_pos = 4 + 20;
    r.extend_from_slice(&((fixed - ref_field_pos) as i32).to_le_bytes());
    r.extend_from_slice(&(name_bytes.len() as u32).to_le_bytes());
    r.extend_from_slice(&objtype.to_le_bytes());
    r.extend_from_slice(&mtime.0.to_le_bytes());
    r.extend_from_slice(&mtime.1.to_le_bytes());
    r.extend_from_slice(&flags.to_le_bytes());
    r.extend_from_slice(&id.to_le_bytes());
    if let Some(l) = len {
        r.extend_from_slice(&l.to_le_bytes());
    }
    r.extend_from_slice(&name_bytes);
    r.resize(total, 0);
    r
}

#[test]
fn mac_attrbulk_roundtrips_in_canonical_order() {
    let mut buf = attrbulk_record("hello.rs", 1, (1000, 500), 0, 42, Some(1234));
    buf.extend(attrbulk_record(
        "subdir",
        2,
        (2000, 0),
        0x4000_0000,
        43,
        None,
    ));
    let got = mac_attrbulk(&buf, 2);
    assert_eq!(got.len(), 2);
    assert_eq!(got[0].name, "hello.rs");
    assert_eq!(got[0].objtype, 1);
    assert_eq!(got[0].mtime_sec, 1000);
    assert_eq!(got[0].file_id, 42);
    assert_eq!(got[0].data_length, Some(1234));
    assert_eq!(got[1].name, "subdir");
    assert_eq!(got[1].flags, 0x4000_0000);
    assert_eq!(got[1].data_length, None);
}

#[test]
fn mac_attrbulk_overrun_length_terminates() {
    let mut buf = attrbulk_record("x", 1, (0, 0), 0, 1, None);
    let n = buf.len();
    buf[0..4].copy_from_slice(&((n as u32) * 10).to_le_bytes());
    assert!(mac_attrbulk(&buf, 1).is_empty());
}

#[test]
fn mac_records_end_where_they_are_malformed_or_counted() {
    let one = attrbulk_record("one", 1, (-5, -1), 7, 1, Some(-1));
    let two = attrbulk_record("two", 5, (6, 7), 0, 2, None);
    let mut buf = one.clone();
    buf.extend(two.clone());
    assert_eq!(mac_attrbulk(&buf, 1).len(), 1);
    assert_eq!(mac_attrbulk(&buf, 9).len(), 2);
    assert!(mac_attrbulk(&buf, 0).is_empty());
    assert_eq!(mac_attrbulk(&buf, 2)[0].mtime_sec, -5);
    assert_eq!(mac_attrbulk(&buf, 2)[0].mtime_nsec, -1);
    assert_eq!(mac_attrbulk(&buf, 2)[0].data_length, Some(-1));
    // A record that is too short for what it declares ends the parse.
    let mut short = one.clone();
    short.truncate(60);
    short[0..4].copy_from_slice(&60u32.to_le_bytes());
    short.extend(two);
    assert!(mac_attrbulk(&short, 2).is_empty());
    // A name that lies out of the record is empty.
    let mut lost = one;
    lost[24..28].copy_from_slice(&(-25i32).to_le_bytes());
    assert_eq!(mac_attrbulk(&lost, 1)[0].name, "");
    lost[24..28].copy_from_slice(&(1_000_000i32).to_le_bytes());
    assert_eq!(mac_attrbulk(&lost, 1)[0].name, "");
}

#[test]
fn mac_records_without_attributes_are_zero() {
    let mut r = 24u32.to_le_bytes().to_vec();
    r.resize(24, 0);
    assert_eq!(
        mac_attrbulk(&r, 1),
        vec![RawMacEntry {
            name: "".into(),
            objtype: 0,
            mtime_sec: 0,
            mtime_nsec: 0,
            flags: 0,
            file_id: 0,
            data_length: None,
        }]
    );
}

#[test]
fn mac_entries_have_their_times_sizes_and_flags() {
    let raw = |objtype: u32, sec: i64, nsec: i64, flags: u32, len: Option<i64>| RawMacEntry {
        name: "n".into(),
        objtype,
        mtime_sec: sec,
        mtime_nsec: nsec,
        flags,
        file_id: 3,
        data_length: len,
    };
    let e = mac_entry(raw(1, 1000, 500, 0x4000_0001, Some(12)), 9);
    assert_eq!(
        e,
        Entry {
            name: "n".into(),
            kind: FileKind::File,
            len: Some(12),
            mtime: Some(1_000_000_000_500),
            ino: Some((9, 3)),
            cloud: Some(true),
        }
    );
    assert_eq!(mac_entry(raw(2, 0, 0, 0, None), 9).kind, FileKind::Dir);
    assert_eq!(mac_entry(raw(5, 0, 0, 1, None), 9).kind, FileKind::Symlink);
    assert_eq!(mac_entry(raw(3, 0, 0, 0, None), 9).kind, FileKind::Other);
    assert_eq!(mac_entry(raw(3, 0, 0, 1, None), 9).cloud, Some(false));
    assert!(mac_time_is_valid(&raw(1, 0, 0, 0, None)));
    assert!(mac_time_is_valid(&raw(1, i64::MAX, 999_999_999, 0, None)));
    assert!(!mac_time_is_valid(&raw(1, i64::MAX, 1_000_000_000, 0, None)));
    assert!(!mac_time_is_valid(&raw(1, -1, 0, 0, None)));
}

#[test]
fn mac_buffers_are_appended_up_to_a_time_that_cannot_be_held() {
    let mut buf = attrbulk_record("a", 1, (1, 0), 0, 1, Some(1));
    let mut entries: Vec<Entry> = Vec::new();
    assert!(append_mac_entries(&mut entries, &buf, 1, 5));
    buf.extend(attrbulk_record("b", 1, (-1, 0), 0, 2, Some(1)));
    buf.extend(attrbulk_record("c", 1, (1, 0), 0, 3, Some(1)));
    assert!(!append_mac_entries(&mut entries, &buf, 3, 5));
    let names: Vec<&str> = entries.iter().map(|e| e.name.as_str()).collect();
    assert_eq!(names, ["a", "a"]);
    assert_eq!(entries[0].ino, Some((5, 1)));
}

/// A FILE_ID_BOTH_DIR_INFORMATION chain.
fn win_record(name: &str, attrs: u32, eof: i64, lwt: i64, id: i64, last: bool) -> Vec<u8> {
    let name_u16: Vec<u8> = name.encode_utf16().flat_map(|u| u.to_le_bytes()).collect();
    let unaligned = WIN_HEAD + name_u16.len();
    let total = unaligned.div_ceil(8) * 8;
    let mut r = vec![0u8; total];
    let next = if last { 0u32 } else { total as u32 };
    r[0..4].copy_from_slice(&next.to_le_bytes());
    r[24..32].copy_from_slice(&lwt.to_le_bytes());
    r[40..48].copy_from_slice(&eof.to_le_bytes());
    r[56..60].copy_from_slice(&attrs.to_le_bytes());
    r[60..64].copy_from_slice(&(name_u16.len() as u32).to_le_bytes());
    r[96..104].copy_from_slice(&id.to_le_bytes());
    r[WIN_HEAD..WIN_HEAD + name_u16.len()].copy_from_slice(&name_u16);
    r
}

#[test]
fn win_id_both_parses_chain_and_skips_dot_entries() {
    let mut buf = win_record(".", 0x10, 0, 0, 0, false);
    buf.extend(win_record(
        "build.log",
        0x20,
        4096,
        132_000_000_000_000_000,
        9,
        false,
    ));
    buf.extend(win_record("junc", 0x410, 0, 0, 10, true));
    let got = win_id_both(&buf);
    assert_eq!(got.len(), 2);
    assert_eq!(got[0].name, "build.log");
    assert_eq!(got[0].end_of_file, 4096);
    assert_eq!(got[1].name, "junc");
    assert_eq!(got[1].attributes & 0x400, 0x400);
}

#[test]
fn win_header_is_104_bytes() {
    assert_eq!(WIN_HEAD, 104);
    assert_eq!(LINUX_HEAD, 19);
}

#[test]
fn win_chains_end_where_they_are_malformed() {
    let mut buf = win_record("größe 𝄞", 0x20, -1, -2, -3, false);
    let first = buf.len();
    buf.extend(win_record("b", 0x20, 0, 0, 0, true));
    let got = win_id_both(&buf);
    assert_eq!(
        got[0],
        RawWinEntry {
            name: "größe 𝄞".into(),
            attributes: 0x20,
            end_of_file: -1,
            last_write_time: -2,
            file_id: -3,
        }
    );
    assert_eq!(got.len(), 2);
    // A next record that would overlap this one, or lie beyond the buffer.
    buf[0..4].copy_from_slice(&103u32.to_le_bytes());
    assert_eq!(win_id_both(&buf).len(), 1);
    buf[0..4].copy_from_slice(&u32::MAX.to_le_bytes());
    assert_eq!(win_id_both(&buf).len(), 1);
    // A name that overruns the buffer.
    let all = buf.len() as u32;
    buf[60..64].copy_from_slice(&all.to_le_bytes());
    assert!(win_id_both(&buf).is_empty());
    assert!(win_id_both(&buf[..first.min(103)]).is_empty());
}

#[test]
fn win_unpaired_surrogates_are_replaced() {
    let mut buf = win_record("ab", 0x20, 0, 0, 0, true);
    buf[WIN_HEAD..WIN_HEAD + 2].copy_from_slice(&0xd800u16.to_le_bytes());
    assert_eq!(win_id_both(&buf)[0].name, "\u{fffd}b");
}

#[test]
fn win_entries_have_their_kinds_times_and_flags() {
    let raw = |attributes: u32, eof: i64, lwt: i64| RawWinEntry {
        name: "n".into(),
        attributes,
        end_of_file: eof,
        last_write_time: lwt,
        file_id: 1,
    };
    let epoch = 116_444_736_000_000_000;
    let e = win_entry(raw(0x20, 4096, epoch + 15));
    assert_eq!(
        e,
        Entry {
            name: "n".into(),
            kind: FileKind::File,
            len: Some(4096),
            mtime: Some(1500),
            ino: None,
            cloud: Some(false),
        }
    );
    assert_eq!(win_entry(raw(0x10, 0, 0)).kind, FileKind::Dir);
    assert_eq!(win_entry(raw(0x410, 0, 0)).kind, FileKind::Symlink);
    assert_eq!(win_entry(raw(0, 0, epoch - 1)).mtime, Some(0));
    assert_eq!(win_entry(raw(0, 0, i64::MIN)).mtime, Some(0));
    for cloud in [0x1000, 0x0004_0000, 0x0040_0000] {
        assert_eq!(win_entry(raw(cloud, 0, 0)).cloud, Some(true));
    }
}

#[test]
fn win_buffers_are_read_as_far_as_they_were_filled() {
    let mut buf = win_record("a", 0x20, 0, 0, 0, false);
    let first = buf.len();
    buf.extend(win_record("b", 0x20, 0, 0, 0, true));
    let names = |information: usize| {
        let mut entries: Vec<Entry> = Vec::new();
        append_win_entries(&mut entries, &buf, information);
        entries.into_iter().map(|e| e.name).collect::<Vec<_>>()
    };
    assert_eq!(names(0), ["a", "b"]);
    assert_eq!(names(usize::MAX), ["a", "b"]);
    assert_eq!(names(first), ["a"]);
}

//! Listings: what kernels write of a directory, and which entries come of it.

use crate::bytes::{
    c_text, le, lossy_text, pow256, signed, until_nul, utf16_text, values32, values64,
};
use crate::dirread::{
    held_times, honours, linux_entries_of, linux_kind, mac_entries_of, mac_entry_of, mac_kind,
    mac_nanos, mac_time_fits, std_kind, win_entries_of, win_entry_of, win_filled, win_kind, Caps,
    EntryView, StdType,
};
use crate::parse::{
    is_dot, linux_record, linux_records, mac_record, mac_records, win_record, win_records,
    RawLinuxView, RawMacView, RawWinView,
};
use vstd::prelude::*;
use vstd::utf8::{decode_utf8, valid_utf8};

verus! {

/// A number is its bytes, the first of them the least.
pub proof fn numbers_are_little_endian(buf: Seq<u8>, off: int)
    ensures
        le(buf, off, 1) == buf[off],
        le(buf, off, 2) == buf[off] + 256 * buf[off + 1],
        le(buf, off, 4) == buf[off] + 256 * buf[off + 1] + 65536 * buf[off + 2] + 16777216 * buf[off
            + 3],
        le(buf, off, 8) == le(buf, off, 4) + 0x1_0000_0000 * le(buf, off + 4, 4),
{
    reveal_with_fuel(le, 9);
}

/// A signed number is below half of its values, or what is missing to all of them.
pub proof fn signed_numbers(n: int)
    ensures
        0 <= n < 0x8000_0000 ==> signed(n, values32()) == n,
        0x8000_0000 <= n < 0x1_0000_0000 ==> signed(n, values32()) == n - 0x1_0000_0000,
        0 <= n < 0x8000_0000_0000_0000 ==> signed(n, values64()) == n,
        0x8000_0000_0000_0000 <= n < 0x1_0000_0000_0000_0000 ==> signed(n, values64()) == n
            - 0x1_0000_0000_0000_0000,
{
}

/// What stands before the first zero byte, or everything where there is none.
pub proof fn up_to_the_first_zero(bytes: Seq<u8>)
    ensures
        ({
            let n = until_nul(bytes).len() as int;
            &&& n <= bytes.len()
            &&& until_nul(bytes) == bytes.take(n)
            &&& forall|i: int| 0 <= i < n ==> bytes[i] != 0
            &&& n < bytes.len() ==> bytes[n] == 0
        }),
    decreases bytes.len(),
{
    if bytes.len() > 0 && bytes[0] != 0 {
        let rest = bytes.skip(1);
        up_to_the_first_zero(rest);
        let n = until_nul(bytes).len() as int;
        assert(until_nul(bytes) =~= bytes.take(n));
        assert forall|i: int| 0 <= i < n implies bytes[i] != 0 by {
            if i > 0 {
                assert(bytes[i] == rest[i - 1]);
            }
        }
        if n < bytes.len() {
            assert(bytes[n] == rest[n - 1]);
        }
    } else {
        assert(until_nul(bytes) =~= bytes.take(0));
    }
}

/// A name that is UTF-8 is taken as it is, and so are units that are no surrogates.
pub proof fn names_are_taken_as_they_are(bytes: Seq<u8>, units: Seq<u16>)
    ensures
        valid_utf8(bytes) ==> lossy_text(bytes) == decode_utf8(bytes),
        (forall|i: int| 0 <= i < units.len() ==> !(0xd800 <= #[trigger] units[i] < 0xe000))
            ==> utf16_text(units).len() == units.len() && forall|i: int|
            0 <= i < units.len() ==> #[trigger] utf16_text(units)[i] == units[i] as char,
{
}

/// A C string ends in a zero byte and is UTF-8; else there is none.
pub proof fn c_strings_end(buf: Seq<u8>, off: int)
    requires
        0 <= off <= buf.len(),
    ensures
        c_text(buf, off) is Some <==> {
            &&& exists|i: int| off <= i < buf.len() && #[trigger] buf[i] == 0
            &&& valid_utf8(until_nul(buf.skip(off)))
        },
        c_text(buf, off) matches Some(s) ==> s == decode_utf8(until_nul(buf.skip(off))),
{
    let rest = buf.skip(off);
    up_to_the_first_zero(rest);
    let n = until_nul(rest).len() as int;
    if n < rest.len() {
        assert(buf[off + n] == 0);
    } else {
        assert forall|i: int| off <= i < buf.len() implies #[trigger] buf[i] != 0 by {
            assert(rest[i - off] == buf[i]);
        }
    }
}

/// The entries for a directory itself and the one above it.
pub proof fn dots_are_two_names(name: Seq<char>)
    ensures
        is_dot(name) <==> name == seq!['.'] || name == seq!['.', '.'],
{
    reveal_strlit(".");
    reveal_strlit("..");
    assert("."@ =~= seq!['.']);
    assert(".."@ =~= seq!['.', '.']);
}

/// A Linux listing is read record by record, as long as a whole one is there: each says how long it
/// is, at least as long as its head. Dots are passed over.
pub proof fn linux_listings_are_read_to_the_end(buf: Seq<u8>, off: int)
    requires
        0 <= off <= buf.len(),
    ensures
        off + 19 > buf.len() ==> linux_records(buf, off).len() == 0,
        off + 19 <= buf.len() ==> {
            let n = le(buf, off + 16, 2) as int;
            let name = lossy_text(until_nul(buf.subrange(off + 19, off + n)));
            let ino = le(buf, off, 8) as u64;
            &&& n < 19 || off + n > buf.len() ==> linux_records(buf, off).len() == 0
            &&& 19 <= n && off + n <= buf.len() && (name == seq!['.'] || name == seq!['.', '.'])
                ==> linux_records(buf, off) == linux_records(buf, off + n)
            &&& 19 <= n && off + n <= buf.len() && name != seq!['.'] && name != seq!['.', '.']
                ==> linux_records(buf, off) == seq![
                RawLinuxView { ino, d_type: buf[off + 18], name },
            ] + linux_records(buf, off + n)
        },
{
    if off + 19 <= buf.len() {
        dots_are_two_names(linux_record(buf, off).name);
    }
}

/// A Windows listing is a chain: each record says how far the next one is, and the last one says 0.
/// A link that is shorter than a head, or leads past the end, ends the chain. Dots are passed over.
pub proof fn windows_listings_are_chains(buf: Seq<u8>, off: int)
    requires
        0 <= off <= buf.len(),
    ensures
        off + 104 > buf.len() || off + 104 + le(buf, off + 60, 4) > buf.len() ==> win_records(
            buf,
            off,
        ).len() == 0,
        off + 104 + le(buf, off + 60, 4) <= buf.len() ==> {
            let next = le(buf, off, 4) as int;
            let record = win_record(buf, off);
            let rest = if next < 104 || off + next > buf.len() {
                seq![]
            } else {
                win_records(buf, off + next)
            };
            &&& record.name == seq!['.'] || record.name == seq!['.', '.'] ==> win_records(buf, off)
                == rest
            &&& record.name != seq!['.'] && record.name != seq!['.', '.'] ==> win_records(buf, off)
                == seq![record] + rest
            &&& record.attributes == le(buf, off + 56, 4)
            &&& record.end_of_file == signed(
                le(buf, off + 40, 8) as int,
                0x1_0000_0000_0000_0000,
            ) as i64
            &&& record.last_write_time == signed(
                le(buf, off + 24, 8) as int,
                0x1_0000_0000_0000_0000,
            ) as i64
        },
{
    crate::bytes::lemma_le_bound(buf, off + 56, 4);
    reveal_with_fuel(pow256, 5);
    dots_are_two_names(win_record(buf, off).name);
}

/// A macOS listing is read record by record, as many as there are said to be, as long as a whole one
/// is there.
pub proof fn mac_listings_are_read_to_the_end(buf: Seq<u8>, base: int, count: int)
    requires
        0 <= base <= buf.len(),
    ensures
        count <= 0 || base + 4 > buf.len() ==> mac_records(buf, base, count).len() == 0,
        count > 0 && base + 4 <= buf.len() ==> {
            let n = le(buf, base, 4) as int;
            let record = mac_record(buf.subrange(base, base + n));
            &&& n < 4 || base + n > buf.len() ==> mac_records(buf, base, count).len() == 0
            &&& 4 <= n && base + n <= buf.len() && record is None ==> mac_records(
                buf,
                base,
                count,
            ).len() == 0
            &&& 4 <= n && base + n <= buf.len() && record is Some ==> mac_records(buf, base, count)
                == seq![record->0] + mac_records(buf, base + n, count - 1)
        },
{
}

/// The attributes that are asked for on macOS, and how long heads are.
pub proof fn layouts_are_fixed()
    ensures
        crate::parse::ATTR_CMN_NAME == 0x1,
        crate::parse::ATTR_CMN_OBJTYPE == 0x8,
        crate::parse::ATTR_CMN_MODTIME == 0x400,
        crate::parse::ATTR_CMN_FLAGS == 0x4_0000,
        crate::parse::ATTR_CMN_FILEID == 0x200_0000,
        crate::parse::ATTR_CMN_RETURNED_ATTRS == 0x8000_0000,
        crate::parse::ATTR_FILE_DATALENGTH == 0x200,
        crate::parse::LINUX_HEAD == 19,
        crate::parse::MAC_HEAD == 24,
        crate::parse::WIN_HEAD == 104,
{
}

/// What an entry is: a link is told first, then a directory, then a file; what is none of them, and
/// what cannot be told, is something else.
pub proof fn kinds_by_type(t: StdType)
    ensures
        std_kind(None) is Other,
        std_kind(Some(t)) is Symlink <==> t.is_symlink,
        std_kind(Some(t)) is Dir <==> !t.is_symlink && t.is_dir,
        std_kind(Some(t)) is File <==> !t.is_symlink && !t.is_dir && t.is_file,
{
}

/// What an entry is, by the type that each kernel gives it.
pub proof fn kinds_by_number(d_type: u8, objtype: u32, attributes: u32)
    ensures
        linux_kind(d_type) is File <==> d_type == 8,
        linux_kind(d_type) is Dir <==> d_type == 4,
        linux_kind(d_type) is Symlink <==> d_type == 10,
        mac_kind(objtype) is File <==> objtype == 1,
        mac_kind(objtype) is Dir <==> objtype == 2,
        mac_kind(objtype) is Symlink <==> objtype == 5,
        win_kind(attributes) is Symlink <==> attributes & 0x400 != 0,
        win_kind(attributes) is Dir <==> attributes & 0x400 == 0 && attributes & 0x10 != 0,
        win_kind(attributes) is File <==> attributes & 0x400 == 0 && attributes & 0x10 == 0,
{
}

/// What a Linux record says of an entry: its name, its kind and its number; nothing of its length
/// and time, and that it is no placeholder.
pub proof fn linux_entries_say(raw: Seq<RawLinuxView>, dev: u64, i: int)
    requires
        0 <= i < raw.len(),
    ensures
        linux_entries_of(raw, dev).len() == raw.len(),
        linux_entries_of(raw, dev)[i] == (EntryView {
            name: raw[i].name,
            kind: linux_kind(raw[i].d_type),
            len: None,
            mtime: None,
            ino: Some((dev, raw[i].ino)),
            cloud: Some(false),
        }),
{
}

/// What a macOS record says of an entry: all of it. A file that is not here is a placeholder.
pub proof fn mac_entries_say(raw: Seq<RawMacView>, dev: u64, i: int)
    requires
        0 <= i < raw.len(),
        0 <= raw[i].mtime_sec,
        0 <= raw[i].mtime_nsec < 1_000_000_000,
    ensures
        mac_entries_of(raw, dev).len() == raw.len(),
        ({
            let e = mac_entries_of(raw, dev)[i];
            &&& e.name == raw[i].name
            &&& e.kind == mac_kind(raw[i].objtype)
            &&& e.ino == Some((dev, raw[i].file_id))
            &&& e.cloud == Some(raw[i].flags & 0x4000_0000 != 0)
            &&& e.mtime == Some(
                (raw[i].mtime_sec * 1_000_000_000 + raw[i].mtime_nsec) as i128,
            )
            &&& raw[i].data_length is None ==> e.len is None
            &&& raw[i].data_length matches Some(n) ==> n >= 0 ==> e.len == Some(n as u64)
            &&& mac_time_fits(raw[i])
        }),
{
    assert(mac_nanos(raw[i]) == raw[i].mtime_nsec);
}

/// Entries are taken as long as their times hold.
pub proof fn mac_entries_are_taken_while_their_times_hold(raw: Seq<RawMacView>)
    ensures
        held_times(raw) <= raw.len(),
        forall|i: int| 0 <= i < held_times(raw) ==> mac_time_fits(#[trigger] raw[i]),
        held_times(raw) < raw.len() ==> !mac_time_fits(raw[held_times(raw) as int]),
    decreases raw.len(),
{
    if raw.len() > 0 && mac_time_fits(raw[0]) {
        let rest = raw.skip(1);
        mac_entries_are_taken_while_their_times_hold(rest);
        assert forall|i: int| 0 <= i < held_times(raw) implies mac_time_fits(
            #[trigger] raw[i],
        ) by {
            if i > 0 {
                assert(raw[i] == rest[i - 1]);
            }
        }
        if held_times(raw) < raw.len() {
            assert(raw[held_times(raw) as int] == rest[held_times(rest) as int]);
        }
    }
}

/// What a Windows record says of an entry: its name, its kind, its length and its time. One that is
/// offline or recalled on access is a placeholder.
pub proof fn windows_entries_say(raw: Seq<RawWinView>, i: int)
    requires
        0 <= i < raw.len(),
    ensures
        win_entries_of(raw).len() == raw.len(),
        ({
            let e = win_entries_of(raw)[i];
            &&& e.name == raw[i].name
            &&& e.kind == win_kind(raw[i].attributes)
            &&& e.ino is None
            &&& e.cloud == Some(raw[i].attributes & 0x44_1000 != 0)
            &&& raw[i].end_of_file >= 0 ==> e.len == Some(raw[i].end_of_file as u64)
            &&& raw[i].last_write_time >= 116_444_736_000_000_000 ==> e.mtime == Some(
                ((raw[i].last_write_time - 116_444_736_000_000_000) * 100) as i128,
            )
            &&& raw[i].last_write_time < 116_444_736_000_000_000 ==> e.mtime == Some(0i128)
        }),
{
}

/// As much of a buffer is read as was filled; all of it, where that is not told.
pub proof fn filled_is_what_was_told(information: usize, len: int)
    requires
        len >= 0,
    ensures
        0 < information <= len ==> win_filled(information, len) == information,
        information == 0 || information > len ==> win_filled(information, len) == len,
{
}

/// A backend gives what it says that it gives, for every entry: and the length at least of files.
pub proof fn caps_are_kept(e: EntryView, caps: Caps)
    ensures
        honours(e, caps) <==> {
            &&& e.kind is File ==> (e.len is Some <==> caps.size)
            &&& e.len is Some ==> caps.size
            &&& e.mtime is Some <==> caps.mtime
            &&& e.ino is Some <==> caps.ino
            &&& e.cloud is Some <==> caps.cloud
        },
{
}

/// How long a macOS record is at least: its head, and what it says that it holds.
pub open spec fn mac_needs(common: u32, fileattr: u32) -> int {
    24 + (if common & 0x1 != 0 {
        8int
    } else {
        0
    }) + (if common & 0x8 != 0 {
        4int
    } else {
        0
    }) + (if common & 0x400 != 0 {
        16int
    } else {
        0
    }) + (if common & 0x4_0000 != 0 {
        4int
    } else {
        0
    }) + (if common & 0x200_0000 != 0 {
        8int
    } else {
        0
    }) + (if fileattr & 0x200 != 0 {
        8int
    } else {
        0
    })
}

/// A macOS record is read where it is as long as it has to be. A name that would stand outside of it
/// is empty.
pub proof fn mac_records_are_whole(record: Seq<u8>)
    ensures
        record.len() < 24 ==> mac_record(record) is None,
        record.len() >= 24 ==> {
            let common = le(record, 4, 4) as u32;
            let fileattr = le(record, 16, 4) as u32;
            let start = 24 + signed(le(record, 24, 4) as int, 0x1_0000_0000);
            &&& mac_record(record) is Some <==> record.len() >= mac_needs(common, fileattr)
            &&& mac_record(record) matches Some(r) ==> {
                &&& common & 0x1 == 0 || start < 0 || start >= record.len() ==> r.name.len() == 0
                &&& common & 0x1 != 0 && 0 <= start < record.len() ==> r.name == lossy_text(
                    until_nul(record.subrange(start, record.len() as int)),
                )
            }
        },
{
}

/// A time on macOS is seconds and nanoseconds, of which the low 32 bits count; it holds where the
/// seconds do, with what the nanoseconds carry over. Lengths are taken without their sign.
pub proof fn mac_times_and_lengths(raw: RawMacView, dev: u64)
    ensures
        ({
            let unsigned = if raw.mtime_nsec < 0 {
                raw.mtime_nsec + 0x1_0000_0000_0000_0000
            } else {
                raw.mtime_nsec as int
            };
            let nanos = unsigned % 0x1_0000_0000;
            &&& mac_time_fits(raw) <==> 0 <= raw.mtime_sec && raw.mtime_sec + nanos / 1_000_000_000
                <= 0x7fff_ffff_ffff_ffff
            &&& mac_entry_of(raw, dev).mtime == Some(
                (raw.mtime_sec * 1_000_000_000 + nanos) as i128,
            )
            &&& raw.data_length matches Some(n) ==> mac_entry_of(raw, dev).len == Some(
                (if n < 0 {
                    n + 0x1_0000_0000_0000_0000
                } else {
                    n as int
                }) as u64,
            )
        }),
{
}

/// A length on Windows is taken without its sign.
pub proof fn windows_lengths(raw: RawWinView)
    ensures
        win_entry_of(raw).len == Some(
            (if raw.end_of_file < 0 {
                raw.end_of_file + 0x1_0000_0000_0000_0000
            } else {
                raw.end_of_file as int
            }) as u64,
        ),
{
}

} // verus!

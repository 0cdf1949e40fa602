//! The layouts that kernels write directory listings in, and that the parsers
//! read them back.

use crate::bytes::{
    le, le_bytes, lemma_le_bytes_len, lemma_le_same, lemma_until_nul_of, lossy_text, number_reads_back_at, pow256,
    signed, until_nul, utf16_text, values32, values64,
};
use crate::parse::{
    is_dot, linux_reclen, linux_record, linux_record_fits, linux_records, mac_common,
    mac_fileattr, mac_fileid_at, mac_fixed_end, mac_flags_at, mac_length_at, mac_modtime_at,
    mac_name, mac_objtype_at, mac_record, mac_records, room, win_name_len, win_name_units,
    win_next, win_record, win_record_fits, win_records, RawLinuxView, RawMacView, RawWinView,
    ATTR_CMN_FILEID, ATTR_CMN_FLAGS, ATTR_CMN_MODTIME, ATTR_CMN_NAME, ATTR_CMN_OBJTYPE,
    ATTR_FILE_DATALENGTH, LINUX_HEAD, MAC_HEAD, WIN_HEAD,
};
use vstd::prelude::*;

verus! {

/// One `linux_dirent64` record: what it says, and how many zero bytes follow the
/// name.
pub struct Dirent {
    pub ino: u64,
    pub off: u64,
    pub d_type: u8,
    pub name: Seq<u8>,
    pub padding: nat,
}

/// Zero bytes.
pub open spec fn zeros(n: nat) -> Seq<u8> {
    Seq::new(n, |i: int| 0u8)
}

impl Dirent {
    /// The length of the record.
    pub open spec fn len(self) -> nat {
        LINUX_HEAD as nat + self.name.len() + self.padding
    }

    /// The name has no zero byte, and the length of the record can be stated.
    pub open spec fn wf(self) -> bool {
        self.len() < 0x1_0000 && forall|i: int| 0 <= i < self.name.len() ==> self.name[i] != 0
    }

    /// The bytes of the record.
    pub open spec fn bytes(self) -> Seq<u8> {
        le_bytes(self.ino as nat, 8) + le_bytes(self.off as nat, 8) + le_bytes(self.len(), 2)
            + seq![self.d_type] + self.name + zeros(self.padding)
    }

    /// What is read of the record.
    pub open spec fn entry(self) -> RawLinuxView {
        RawLinuxView { ino: self.ino, d_type: self.d_type, name: lossy_text(self.name) }
    }
}

/// The bytes of a listing: the records, one after the other.
pub open spec fn dirents_bytes(records: Seq<Dirent>) -> Seq<u8>
    decreases records.len(),
{
    if records.len() == 0 {
        seq![]
    } else {
        records[0].bytes() + dirents_bytes(records.skip(1))
    }
}

/// What is read of a listing: an entry for each record, but for `.` and `..`.
pub open spec fn dirents_entries(records: Seq<Dirent>) -> Seq<RawLinuxView>
    decreases records.len(),
{
    if records.len() == 0 {
        seq![]
    } else {
        let rest = dirents_entries(records.skip(1));
        if is_dot(records[0].entry().name) {
            rest
        } else {
            seq![records[0].entry()] + rest
        }
    }
}

proof fn lemma_dirent_reads(before: Seq<u8>, d: Dirent, after: Seq<u8>)
    requires
        d.wf(),
    ensures
        ({
            let buf = before + d.bytes() + after;
            let at = before.len() as int;
            &&& linux_record_fits(buf, at)
            &&& linux_reclen(buf, at) == d.len()
            &&& linux_record(buf, at) == d.entry()
        }),
{
    let buf = before + d.bytes() + after;
    let at = before.len() as int;
    let ino = le_bytes(d.ino as nat, 8);
    let off = le_bytes(d.off as nat, 8);
    let len = le_bytes(d.len(), 2);
    lemma_le_bytes_len(d.ino as nat, 8);
    lemma_le_bytes_len(d.off as nat, 8);
    lemma_le_bytes_len(d.len(), 2);
    reveal_with_fuel(pow256, 9);
    assert(d.bytes().len() == d.len());
    assert(buf.subrange(at, at + 8) =~= ino);
    assert(buf.subrange(at + 16, at + 18) =~= len);
    number_reads_back_at(buf, at, d.ino as nat, 8);
    number_reads_back_at(buf, at + 16, d.len(), 2);
    assert(buf[at + 18] == d.d_type);
    let name = buf.subrange(at + LINUX_HEAD, at + linux_reclen(buf, at));
    assert(name =~= d.name + zeros(d.padding));
    lemma_until_nul_of(d.name, zeros(d.padding));
}

proof fn lemma_dirents_read(before: Seq<u8>, records: Seq<Dirent>)
    requires
        forall|i: int| 0 <= i < records.len() ==> (#[trigger] records[i]).wf(),
    ensures
        linux_records(before + dirents_bytes(records), before.len() as int) == dirents_entries(
            records,
        ),
    decreases records.len(),
{
    let buf = before + dirents_bytes(records);
    let at = before.len() as int;
    if records.len() == 0 {
        assert(buf.len() == before.len());
    } else {
        let d = records[0];
        let rest = records.skip(1);
        let more = before + d.bytes();
        assert(buf =~= before + d.bytes() + dirents_bytes(rest));
        lemma_dirent_reads(before, d, dirents_bytes(rest));
        assert(buf =~= more + dirents_bytes(rest));
        assert(d.bytes().len() == d.len()) by {
            lemma_le_bytes_len(d.ino as nat, 8);
            lemma_le_bytes_len(d.off as nat, 8);
            lemma_le_bytes_len(d.len(), 2);
        }
        assert forall|i: int| 0 <= i < rest.len() implies (#[trigger] rest[i]).wf() by {
            assert(rest[i] == records[i + 1]);
        }
        lemma_dirents_read(more, rest);
    }
}

/// A listing in the layout that getdents64 writes reads back, record by record:
/// names start at byte 19, whatever padding follows them.
pub proof fn linux_listing_reads_back(records: Seq<Dirent>)
    requires
        forall|i: int| 0 <= i < records.len() ==> (#[trigger] records[i]).wf(),
    ensures
        linux_records(dirents_bytes(records), 0) == dirents_entries(records),
{
    lemma_dirents_read(seq![], records);
    assert(Seq::<u8>::empty() + dirents_bytes(records) =~= dirents_bytes(records));
}

/// A two's complement number of `bits` values as an unsigned one.
pub open spec fn unsigned(n: int, bits: int) -> nat {
    (if n < 0 {
        n + bits
    } else {
        n
    }) as nat
}

/// One FILE_ID_BOTH_DIR_INFORMATION record: what is read of it, the bytes between
/// that are not, and how many zero bytes follow the name.
pub struct WinRecord {
    pub before_write: Seq<u8>,
    pub last_write_time: i64,
    pub before_size: Seq<u8>,
    pub end_of_file: i64,
    pub before_attributes: Seq<u8>,
    pub attributes: u32,
    pub before_id: Seq<u8>,
    pub file_id: i64,
    pub name: Seq<u16>,
    pub padding: nat,
}

/// The bytes of UTF-16 units, the low byte of each first.
pub open spec fn unit_bytes(units: Seq<u16>) -> Seq<u8> {
    Seq::new(2 * units.len(), |i: int| le_bytes(units[i / 2] as nat, 2)[i % 2])
}

impl WinRecord {
    /// The length of the record.
    pub open spec fn len(self) -> nat {
        WIN_HEAD as nat + 2 * self.name.len() + self.padding
    }

    /// The bytes that are not read fill their places, and the length of the record
    /// can be stated.
    pub open spec fn wf(self) -> bool {
        &&& self.before_write.len() == 20
        &&& self.before_size.len() == 8
        &&& self.before_attributes.len() == 8
        &&& self.before_id.len() == 32
        &&& self.len() < 0x1_0000_0000
    }

    /// The bytes of the record, whose next lies `next` bytes on.
    pub open spec fn bytes(self, next: nat) -> Seq<u8> {
        le_bytes(next, 4) + self.before_write + le_bytes(
            unsigned(self.last_write_time as int, values64()),
            8,
        ) + self.before_size + le_bytes(unsigned(self.end_of_file as int, values64()), 8)
            + self.before_attributes + le_bytes(self.attributes as nat, 4) + le_bytes(
            2 * self.name.len(),
            4,
        ) + self.before_id + le_bytes(unsigned(self.file_id as int, values64()), 8) + unit_bytes(
            self.name,
        ) + zeros(self.padding)
    }

    /// What is read of the record.
    pub open spec fn entry(self) -> RawWinView {
        RawWinView {
            name: utf16_text(self.name),
            attributes: self.attributes,
            end_of_file: self.end_of_file,
            last_write_time: self.last_write_time,
            file_id: self.file_id,
        }
    }
}

/// The bytes of a chain: each record leads to the next, the last to none.
pub open spec fn chain_bytes(records: Seq<WinRecord>) -> Seq<u8>
    decreases records.len(),
{
    if records.len() == 0 {
        seq![]
    } else if records.len() == 1 {
        records[0].bytes(0)
    } else {
        records[0].bytes(records[0].len()) + chain_bytes(records.skip(1))
    }
}

/// What is read of a chain: an entry for each record, but for `.` and `..`.
pub open spec fn chain_entries(records: Seq<WinRecord>) -> Seq<RawWinView>
    decreases records.len(),
{
    if records.len() == 0 {
        seq![]
    } else {
        let rest = chain_entries(records.skip(1));
        if is_dot(records[0].entry().name) {
            rest
        } else {
            seq![records[0].entry()] + rest
        }
    }
}

proof fn lemma_win_lens(w: WinRecord, next: nat)
    requires
        w.wf(),
    ensures
        w.bytes(next).len() == w.len(),
        le_bytes(next, 4).len() == 4,
        le_bytes(unsigned(w.last_write_time as int, values64()), 8).len() == 8,
        le_bytes(unsigned(w.end_of_file as int, values64()), 8).len() == 8,
        le_bytes(w.attributes as nat, 4).len() == 4,
        le_bytes(2 * w.name.len(), 4).len() == 4,
        le_bytes(unsigned(w.file_id as int, values64()), 8).len() == 8,
{
    lemma_le_bytes_len(next, 4);
    lemma_le_bytes_len(unsigned(w.last_write_time as int, values64()), 8);
    lemma_le_bytes_len(unsigned(w.end_of_file as int, values64()), 8);
    lemma_le_bytes_len(w.attributes as nat, 4);
    lemma_le_bytes_len(2 * w.name.len(), 4);
    lemma_le_bytes_len(unsigned(w.file_id as int, values64()), 8);
}

proof fn lemma_win_numbers(before: Seq<u8>, w: WinRecord, next: nat, after: Seq<u8>)
    requires
        w.wf(),
        next < 0x1_0000_0000,
    ensures
        ({
            let buf = before + w.bytes(next) + after;
            let at = before.len() as int;
            &&& win_next(buf, at) == next
            &&& win_name_len(buf, at) == 2 * w.name.len()
            &&& le(buf, at + 24, 8) == unsigned(w.last_write_time as int, values64())
            &&& le(buf, at + 40, 8) == unsigned(w.end_of_file as int, values64())
            &&& le(buf, at + 56, 4) == w.attributes
            &&& le(buf, at + 96, 8) == unsigned(w.file_id as int, values64())
        }),
{
    let buf = before + w.bytes(next) + after;
    let at = before.len() as int;
    let write = unsigned(w.last_write_time as int, values64());
    let size = unsigned(w.end_of_file as int, values64());
    let id = unsigned(w.file_id as int, values64());
    lemma_win_lens(w, next);
    reveal_with_fuel(pow256, 9);
    assert(buf.subrange(at, at + 4) =~= le_bytes(next, 4));
    assert(buf.subrange(at + 24, at + 32) =~= le_bytes(write, 8));
    assert(buf.subrange(at + 40, at + 48) =~= le_bytes(size, 8));
    assert(buf.subrange(at + 56, at + 60) =~= le_bytes(w.attributes as nat, 4));
    assert(buf.subrange(at + 60, at + 64) =~= le_bytes(2 * w.name.len(), 4));
    assert(buf.subrange(at + 96, at + 104) =~= le_bytes(id, 8));
    number_reads_back_at(buf, at, next, 4);
    number_reads_back_at(buf, at + 24, write, 8);
    number_reads_back_at(buf, at + 40, size, 8);
    number_reads_back_at(buf, at + 56, w.attributes as nat, 4);
    number_reads_back_at(buf, at + 60, 2 * w.name.len(), 4);
    number_reads_back_at(buf, at + 96, id, 8);
}

proof fn lemma_win_reads(before: Seq<u8>, w: WinRecord, next: nat, after: Seq<u8>)
    requires
        w.wf(),
        next < 0x1_0000_0000,
    ensures
        ({
            let buf = before + w.bytes(next) + after;
            let at = before.len() as int;
            &&& win_record_fits(buf, at)
            &&& win_next(buf, at) == next
            &&& win_record(buf, at) == w.entry()
        }),
{
    let buf = before + w.bytes(next) + after;
    let at = before.len() as int;
    lemma_win_lens(w, next);
    lemma_win_numbers(before, w, next, after);
    reveal_with_fuel(pow256, 3);
    let units = win_name_units(buf, at);
    assert forall|i: int| 0 <= i < w.name.len() implies #[trigger] units[i] == w.name[i] by {
        let u = w.name[i] as nat;
        let from = at + WIN_HEAD + 2 * i;
        lemma_le_bytes_len(u, 2);
        assert(unit_bytes(w.name)[2 * i] == le_bytes(u, 2)[0]);
        assert(unit_bytes(w.name)[2 * i + 1] == le_bytes(u, 2)[1]);
        assert(buf[from] == unit_bytes(w.name)[2 * i]);
        assert(buf[from + 1] == unit_bytes(w.name)[2 * i + 1]);
        assert(buf.subrange(from, from + 2) =~= le_bytes(u, 2));
        number_reads_back_at(buf, from, u, 2);
    }
    assert(units =~= w.name);
}

proof fn lemma_chain_reads(before: Seq<u8>, records: Seq<WinRecord>)
    requires
        forall|i: int| 0 <= i < records.len() ==> (#[trigger] records[i]).wf(),
    ensures
        win_records(before + chain_bytes(records), before.len() as int) == chain_entries(records),
    decreases records.len(),
{
    let buf = before + chain_bytes(records);
    let at = before.len() as int;
    if records.len() == 0 {
        assert(buf.len() == before.len());
    } else {
        let w = records[0];
        let rest = records.skip(1);
        if records.len() == 1 {
            lemma_win_reads(before, w, 0, seq![]);
            assert(buf =~= before + w.bytes(0) + Seq::<u8>::empty());
            assert(rest.len() == 0);
            assert(chain_entries(rest) =~= seq![]);
        } else {
            let more = before + w.bytes(w.len());
            lemma_win_reads(before, w, w.len(), chain_bytes(rest));
            lemma_win_lens(w, w.len());
            assert(buf =~= before + w.bytes(w.len()) + chain_bytes(rest));
            assert(buf =~= more + chain_bytes(rest));
            assert forall|i: int| 0 <= i < rest.len() implies (#[trigger] rest[i]).wf() by {
                assert(rest[i] == records[i + 1]);
            }
            lemma_chain_reads(more, rest);
        }
    }
}

/// A chain in the layout that NtQueryDirectoryFile writes reads back, record by
/// record.
pub proof fn win_chain_reads_back(records: Seq<WinRecord>)
    requires
        forall|i: int| 0 <= i < records.len() ==> (#[trigger] records[i]).wf(),
    ensures
        win_records(chain_bytes(records), 0) == chain_entries(records),
{
    lemma_chain_reads(seq![], records);
    assert(Seq::<u8>::empty() + chain_bytes(records) =~= chain_bytes(records));
}

/// One getattrlistbulk record: the attributes that it returns, their values, the
/// bytes between that are not read, and how many zero bytes follow the name.
pub struct MacRecord {
    pub common: u32,
    pub volume_and_dir: Seq<u8>,
    pub fileattr: u32,
    pub fork: Seq<u8>,
    pub name_len: Seq<u8>,
    pub objtype: u32,
    pub mtime_sec: i64,
    pub mtime_nsec: i64,
    pub flags: u32,
    pub file_id: u64,
    pub data_length: i64,
    pub before_name: Seq<u8>,
    pub name: Seq<u8>,
    pub padding: nat,
}

/// Bytes that are there or not.
pub open spec fn piece(present: bool, bytes: Seq<u8>) -> Seq<u8> {
    if present {
        bytes
    } else {
        seq![]
    }
}

impl MacRecord {
    /// The common attribute is returned.
    pub open spec fn has(self, attribute: u32) -> bool {
        self.common & attribute != 0
    }

    /// The data length is returned.
    pub open spec fn has_length(self) -> bool {
        self.fileattr & ATTR_FILE_DATALENGTH != 0
    }

    /// Where the name's bytes start.
    pub open spec fn name_at(self) -> int {
        mac_fixed_end(self.common, self.fileattr) + self.before_name.len()
    }

    /// The length of the record.
    pub open spec fn len(self) -> nat {
        (self.name_at() + self.name.len() + self.padding) as nat
    }

    /// The name has no zero byte and lies in the record, the bytes that are not
    /// read fill their places, and the length of the record can be stated.
    pub open spec fn wf(self) -> bool {
        &&& self.volume_and_dir.len() == 8
        &&& self.fork.len() == 4
        &&& self.name_len.len() == 4
        &&& self.len() < 0x8000_0000
        &&& self.name.len() + self.padding > 0
        &&& forall|i: int| 0 <= i < self.name.len() ==> self.name[i] != 0
    }

    /// The record's length and what it returns.
    pub open spec fn head(self) -> Seq<u8> {
        le_bytes(self.len(), 4) + le_bytes(self.common as nat, 4) + self.volume_and_dir + le_bytes(
            self.fileattr as nat,
            4,
        ) + self.fork
    }

    /// The reference to the name.
    pub open spec fn name_ref(self) -> Seq<u8> {
        piece(
            self.has(ATTR_CMN_NAME),
            le_bytes((self.name_at() - MAC_HEAD) as nat, 4) + self.name_len,
        )
    }

    /// The object type.
    pub open spec fn objtype_bytes(self) -> Seq<u8> {
        piece(self.has(ATTR_CMN_OBJTYPE), le_bytes(self.objtype as nat, 4))
    }

    /// The modification time.
    pub open spec fn modtime_bytes(self) -> Seq<u8> {
        piece(
            self.has(ATTR_CMN_MODTIME),
            le_bytes(unsigned(self.mtime_sec as int, values64()), 8) + le_bytes(
                unsigned(self.mtime_nsec as int, values64()),
                8,
            ),
        )
    }

    /// The flags.
    pub open spec fn flags_bytes(self) -> Seq<u8> {
        piece(self.has(ATTR_CMN_FLAGS), le_bytes(self.flags as nat, 4))
    }

    /// The file id.
    pub open spec fn fileid_bytes(self) -> Seq<u8> {
        piece(self.has(ATTR_CMN_FILEID), le_bytes(self.file_id as nat, 8))
    }

    /// The data length.
    pub open spec fn length_bytes(self) -> Seq<u8> {
        piece(self.has_length(), le_bytes(unsigned(self.data_length as int, values64()), 8))
    }

    /// The bytes of the record.
    pub open spec fn bytes(self) -> Seq<u8> {
        self.head() + self.name_ref() + self.objtype_bytes() + self.modtime_bytes()
            + self.flags_bytes() + self.fileid_bytes() + self.length_bytes() + self.before_name
            + self.name + zeros(self.padding)
    }

    /// What is read of the record: what it does not return is zero.
    pub open spec fn entry(self) -> RawMacView {
        RawMacView {
            name: if self.has(ATTR_CMN_NAME) {
                lossy_text(self.name)
            } else {
                seq![]
            },
            objtype: if self.has(ATTR_CMN_OBJTYPE) {
                self.objtype
            } else {
                0
            },
            mtime_sec: if self.has(ATTR_CMN_MODTIME) {
                self.mtime_sec
            } else {
                0
            },
            mtime_nsec: if self.has(ATTR_CMN_MODTIME) {
                self.mtime_nsec
            } else {
                0
            },
            flags: if self.has(ATTR_CMN_FLAGS) {
                self.flags
            } else {
                0
            },
            file_id: if self.has(ATTR_CMN_FILEID) {
                self.file_id
            } else {
                0
            },
            data_length: if self.has_length() {
                Some(self.data_length)
            } else {
                None
            },
        }
    }
}

proof fn lemma_mac_lens(m: MacRecord)
    requires
        m.wf(),
    ensures
        m.head().len() == MAC_HEAD,
        m.name_ref().len() == room(m.has(ATTR_CMN_NAME), 8),
        m.objtype_bytes().len() == room(m.has(ATTR_CMN_OBJTYPE), 4),
        m.modtime_bytes().len() == room(m.has(ATTR_CMN_MODTIME), 16),
        m.flags_bytes().len() == room(m.has(ATTR_CMN_FLAGS), 4),
        m.fileid_bytes().len() == room(m.has(ATTR_CMN_FILEID), 8),
        m.length_bytes().len() == room(m.has_length(), 8),
        m.bytes().len() == m.len(),
{
    broadcast use lemma_le_bytes_len;

}

/// `part` stands at `at`.
spec fn stands(buf: Seq<u8>, at: int, part: Seq<u8>) -> bool {
    0 <= at && at + part.len() <= buf.len() && buf.subrange(at, at + part.len()) == part
}

proof fn lemma_stands_inside(buf: Seq<u8>, at: int, a: Seq<u8>, b: Seq<u8>, c: Seq<u8>)
    requires
        stands(buf, at, a + b + c),
    ensures
        stands(buf, at + a.len(), b),
{
    let all = a + b + c;
    assert forall|i: int| 0 <= i < b.len() implies buf[at + a.len() + i] == b[i] by {
        assert(buf.subrange(at, at + all.len())[a.len() + i] == all[a.len() + i]);
    }
    assert(buf.subrange(at + a.len(), at + a.len() + b.len()) =~= b);
}

proof fn lemma_mac_places(m: MacRecord)
    requires
        m.wf(),
    ensures
        stands(m.bytes(), 0, m.head()),
        stands(m.bytes(), MAC_HEAD as int, m.name_ref()),
        stands(m.bytes(), mac_objtype_at(m.common), m.objtype_bytes()),
        stands(m.bytes(), mac_modtime_at(m.common), m.modtime_bytes()),
        stands(m.bytes(), mac_flags_at(m.common), m.flags_bytes()),
        stands(m.bytes(), mac_fileid_at(m.common), m.fileid_bytes()),
        stands(m.bytes(), mac_length_at(m.common), m.length_bytes()),
        stands(m.bytes(), m.name_at(), m.name + zeros(m.padding)),
{
    lemma_mac_lens(m);
    lemma_ten_parts_stand(
        m.head(),
        m.name_ref(),
        m.objtype_bytes(),
        m.modtime_bytes(),
        m.flags_bytes(),
        m.fileid_bytes(),
        m.length_bytes(),
        m.before_name,
        m.name,
        zeros(m.padding),
    );
}

/// Each of ten parts stands where the parts before it end, the last two together.
proof fn lemma_ten_parts_stand(
    a: Seq<u8>,
    b: Seq<u8>,
    c: Seq<u8>,
    d: Seq<u8>,
    e: Seq<u8>,
    f: Seq<u8>,
    g: Seq<u8>,
    h: Seq<u8>,
    i: Seq<u8>,
    j: Seq<u8>,
)
    ensures
        ({
            let all = a + b + c + d + e + f + g + h + i + j;
            let n4 = a.len() + b.len() + c.len() + d.len();
            let n7 = n4 + e.len() + f.len() + g.len();
            &&& stands(all, 0, a)
            &&& stands(all, a.len() as int, b)
            &&& stands(all, (a.len() + b.len()) as int, c)
            &&& stands(all, (a.len() + b.len() + c.len()) as int, d)
            &&& stands(all, n4 as int, e)
            &&& stands(all, (n4 + e.len()) as int, f)
            &&& stands(all, (n4 + e.len() + f.len()) as int, g)
            &&& stands(all, (n7 + h.len()) as int, i + j)
        }),
{
    let all = a + b + c + d + e + f + g + h + i + j;
    let four = a + b + c + d;
    let seven = four + e + f + g;
    let none = Seq::<u8>::empty();
    lemma_parts_stand(a, b, c, d, e + f + g + h + i + j);
    assert(all =~= four + (e + f + g + h + i + j));
    lemma_parts_stand(four, e, f, g, h + i + j);
    assert(all =~= seven + (h + i + j));
    lemma_parts_stand(seven, h, i + j, none, none);
    assert(all =~= seven + h + (i + j) + none + none);
}

/// Each of five parts stands where the parts before it end.
proof fn lemma_parts_stand(a: Seq<u8>, b: Seq<u8>, c: Seq<u8>, d: Seq<u8>, e: Seq<u8>)
    ensures
        ({
            let all = a + b + c + d + e;
            &&& stands(all, 0, a)
            &&& stands(all, a.len() as int, b)
            &&& stands(all, (a.len() + b.len()) as int, c)
            &&& stands(all, (a.len() + b.len() + c.len()) as int, d)
        }),
{
    let all = a + b + c + d + e;
    let n1 = a.len() as int;
    let n2 = n1 + b.len();
    let n3 = n2 + c.len();
    let n4 = n3 + d.len();
    assert(all.subrange(0, n1) =~= a);
    assert(all.subrange(n1, n2) =~= b);
    assert(all.subrange(n2, n3) =~= c);
    assert(all.subrange(n3, n4) =~= d);
}

proof fn lemma_mac_head(m: MacRecord)
    requires
        m.wf(),
    ensures
        le(m.bytes(), 0, 4) == m.len(),
        mac_common(m.bytes()) == m.common,
        mac_fileattr(m.bytes()) == m.fileattr,
{
    broadcast use lemma_le_bytes_len;

    let buf = m.bytes();
    lemma_mac_places(m);
    reveal_with_fuel(pow256, 5);
    let a = le_bytes(m.len(), 4);
    let b = le_bytes(m.common as nat, 4);
    let c = le_bytes(m.fileattr as nat, 4);
    assert(m.head() =~= Seq::<u8>::empty() + a + (b + m.volume_and_dir + c + m.fork));
    lemma_stands_inside(buf, 0, seq![], a, b + m.volume_and_dir + c + m.fork);
    assert(m.head() =~= a + b + (m.volume_and_dir + c + m.fork));
    lemma_stands_inside(buf, 0, a, b, m.volume_and_dir + c + m.fork);
    assert(m.head() =~= (a + b + m.volume_and_dir) + c + m.fork);
    lemma_stands_inside(buf, 0, a + b + m.volume_and_dir, c, m.fork);
    number_reads_back_at(buf, 0, m.len(), 4);
    number_reads_back_at(buf, 4, m.common as nat, 4);
    number_reads_back_at(buf, 16, m.fileattr as nat, 4);
}

proof fn lemma_mac_name(m: MacRecord)
    requires
        m.wf(),
        m.has(ATTR_CMN_NAME),
    ensures
        mac_name(m.bytes()) == lossy_text(m.name),
{
    broadcast use lemma_le_bytes_len;

    let buf = m.bytes();
    lemma_mac_lens(m);
    lemma_mac_places(m);
    reveal_with_fuel(pow256, 5);
    let distance = (m.name_at() - MAC_HEAD) as nat;
    let a = le_bytes(distance, 4);
    assert(m.name_ref() =~= Seq::<u8>::empty() + a + m.name_len);
    lemma_stands_inside(buf, MAC_HEAD as int, seq![], a, m.name_len);
    number_reads_back_at(buf, MAC_HEAD as int, distance, 4);
    assert(signed(distance as int, values32()) == distance);
    let start = m.name_at();
    assert(buf.subrange(start, buf.len() as int) =~= m.name + zeros(m.padding)) by {
        assert(start + (m.name + zeros(m.padding)).len() == buf.len());
    }
    lemma_until_nul_of(m.name, zeros(m.padding));
}

proof fn lemma_mac_fields(m: MacRecord)
    requires
        m.wf(),
    ensures
        m.has(ATTR_CMN_OBJTYPE) ==> le(m.bytes(), mac_objtype_at(m.common), 4) == m.objtype,
        m.has(ATTR_CMN_FLAGS) ==> le(m.bytes(), mac_flags_at(m.common), 4) == m.flags,
        m.has(ATTR_CMN_FILEID) ==> le(m.bytes(), mac_fileid_at(m.common), 8) == m.file_id,
        m.has_length() ==> le(m.bytes(), mac_length_at(m.common), 8) == unsigned(
            m.data_length as int,
            values64(),
        ),
{
    broadcast use lemma_le_bytes_len;

    let buf = m.bytes();
    lemma_mac_places(m);
    reveal_with_fuel(pow256, 9);
    if m.has(ATTR_CMN_OBJTYPE) {
        number_reads_back_at(buf, mac_objtype_at(m.common), m.objtype as nat, 4);
    }
    if m.has(ATTR_CMN_FLAGS) {
        number_reads_back_at(buf, mac_flags_at(m.common), m.flags as nat, 4);
    }
    if m.has(ATTR_CMN_FILEID) {
        number_reads_back_at(buf, mac_fileid_at(m.common), m.file_id as nat, 8);
    }
    if m.has_length() {
        number_reads_back_at(
            buf,
            mac_length_at(m.common),
            unsigned(m.data_length as int, values64()),
            8,
        );
    }
}

proof fn lemma_mac_time(m: MacRecord)
    requires
        m.wf(),
        m.has(ATTR_CMN_MODTIME),
    ensures
        le(m.bytes(), mac_modtime_at(m.common), 8) == unsigned(m.mtime_sec as int, values64()),
        le(m.bytes(), mac_modtime_at(m.common) + 8, 8) == unsigned(
            m.mtime_nsec as int,
            values64(),
        ),
{
    broadcast use lemma_le_bytes_len;

    let buf = m.bytes();
    let at = mac_modtime_at(m.common);
    lemma_mac_places(m);
    reveal_with_fuel(pow256, 9);
    let sec = unsigned(m.mtime_sec as int, values64());
    let nsec = unsigned(m.mtime_nsec as int, values64());
    let a = le_bytes(sec, 8);
    let b = le_bytes(nsec, 8);
    assert(m.modtime_bytes() =~= Seq::<u8>::empty() + a + b);
    lemma_stands_inside(buf, at, seq![], a, b);
    assert(m.modtime_bytes() =~= a + b + Seq::<u8>::empty());
    lemma_stands_inside(buf, at, a, b, seq![]);
    number_reads_back_at(buf, at, sec, 8);
    number_reads_back_at(buf, at + 8, nsec, 8);
}

proof fn lemma_mac_reads(m: MacRecord)
    requires
        m.wf(),
    ensures
        mac_record(m.bytes()) == Some(m.entry()),
        le(m.bytes(), 0, 4) == m.len(),
{
    lemma_mac_lens(m);
    lemma_mac_head(m);
    lemma_mac_fields(m);
    if m.has(ATTR_CMN_NAME) {
        lemma_mac_name(m);
    }
    if m.has(ATTR_CMN_MODTIME) {
        lemma_mac_time(m);
    }
}

/// The bytes of records, one after the other.
pub open spec fn attrbulk_bytes(records: Seq<MacRecord>) -> Seq<u8>
    decreases records.len(),
{
    if records.len() == 0 {
        seq![]
    } else {
        records[0].bytes() + attrbulk_bytes(records.skip(1))
    }
}

/// What is read of records.
pub open spec fn attrbulk_entries(records: Seq<MacRecord>) -> Seq<RawMacView> {
    Seq::new(records.len(), |i: int| records[i].entry())
}

proof fn lemma_attrbulk_reads(before: Seq<u8>, records: Seq<MacRecord>)
    requires
        forall|i: int| 0 <= i < records.len() ==> (#[trigger] records[i]).wf(),
    ensures
        mac_records(
            before + attrbulk_bytes(records),
            before.len() as int,
            records.len() as int,
        ) == attrbulk_entries(records),
    decreases records.len(),
{
    let buf = before + attrbulk_bytes(records);
    let at = before.len() as int;
    if records.len() == 0 {
        assert(attrbulk_entries(records) =~= seq![]);
    } else {
        let m = records[0];
        let rest = records.skip(1);
        let more = before + m.bytes();
        lemma_mac_lens(m);
        lemma_mac_reads(m);
        assert(buf =~= more + attrbulk_bytes(rest));
        assert(buf.subrange(at, at + m.len()) =~= m.bytes());
        assert(le(buf, at, 4) == m.len()) by {
            assert forall|i: int| 0 <= i < 4 implies #[trigger] buf[at + i] == m.bytes()[0 + i] by {}
            lemma_le_same(buf, at, m.bytes(), 0, 4);
        }
        assert forall|i: int| 0 <= i < rest.len() implies (#[trigger] rest[i]).wf() by {
            assert(rest[i] == records[i + 1]);
        }
        lemma_attrbulk_reads(more, rest);
        assert(attrbulk_entries(records) =~= seq![m.entry()] + attrbulk_entries(rest));
    }
}

/// Records in the layout that getattrlistbulk writes read back, whatever
/// attributes each of them returns.
pub proof fn mac_records_read_back(records: Seq<MacRecord>)
    requires
        forall|i: int| 0 <= i < records.len() ==> (#[trigger] records[i]).wf(),
    ensures
        mac_records(attrbulk_bytes(records), 0, records.len() as int) == attrbulk_entries(records),
{
    lemma_attrbulk_reads(seq![], records);
    assert(Seq::<u8>::empty() + attrbulk_bytes(records) =~= attrbulk_bytes(records));
}

} // verus!

//! Little-endian numbers in byte buffers, and the texts that bytes hold.

use vstd::prelude::*;
use vstd::slice::slice_subrange;
use vstd::utf8::{decode_utf8, valid_utf8};

verus! {

/// 256 to the power of `n`.
pub open spec fn pow256(n: nat) -> nat
    decreases n,
{
    if n == 0 {
        1
    } else {
        256 * pow256((n - 1) as nat)
    }
}

/// The number whose `n` bytes stand at `off`, lowest byte first.
pub open spec fn le(buf: Seq<u8>, off: int, n: nat) -> nat
    decreases n,
{
    if n == 0 {
        0
    } else {
        buf[off] as nat + 256 * le(buf, off + 1, (n - 1) as nat)
    }
}

/// `n` bytes hold a number below 256 to the power of `n`.
pub proof fn lemma_le_bound(buf: Seq<u8>, off: int, n: nat)
    ensures
        le(buf, off, n) < pow256(n),
    decreases n,
{
    if n > 0 {
        lemma_le_bound(buf, off + 1, (n - 1) as nat);
    }
}

fn read_le(buf: &[u8], off: usize, n: usize) -> (r: u64)
    requires
        off + n <= buf@.len(),
        n <= 8,
    ensures
        r == le(buf@, off as int, n as nat),
    decreases n,
{
    proof {
        lemma_le_bound(buf@, off as int, n as nat);
        reveal_with_fuel(pow256, 9);
    }
    let len: usize = buf.len();
    if n == 0 {
        0
    } else {
        assert(off + n <= len);
        let rest: u64 = read_le(buf, off + 1, n - 1);
        buf[off] as u64 + 256 * rest
    }
}

/// The two-byte number at `off`.
pub fn read_u16(buf: &[u8], off: usize) -> (r: u16)
    requires
        off + 2 <= buf@.len(),
    ensures
        r == le(buf@, off as int, 2),
{
    proof {
        lemma_le_bound(buf@, off as int, 2);
        reveal_with_fuel(pow256, 3);
    }
    read_le(buf, off, 2) as u16
}

/// The four-byte number at `off`.
pub fn read_u32(buf: &[u8], off: usize) -> (r: u32)
    requires
        off + 4 <= buf@.len(),
    ensures
        r == le(buf@, off as int, 4),
{
    proof {
        lemma_le_bound(buf@, off as int, 4);
        reveal_with_fuel(pow256, 5);
    }
    read_le(buf, off, 4) as u32
}

/// The eight-byte number at `off`.
pub fn read_u64(buf: &[u8], off: usize) -> (r: u64)
    requires
        off + 8 <= buf@.len(),
    ensures
        r == le(buf@, off as int, 8),
{
    read_le(buf, off, 8)
}

/// Reads an unsigned number of `bits` values as a two's complement number.
pub open spec fn signed(n: int, bits: int) -> int {
    if n < bits / 2 {
        n
    } else {
        n - bits
    }
}

/// The number of values that 32 bits have.
pub open spec fn values32() -> int {
    0x1_0000_0000
}

/// The number of values that 64 bits have.
pub open spec fn values64() -> int {
    0x1_0000_0000_0000_0000
}

/// The signed eight-byte number at `off`.
pub fn read_i64(buf: &[u8], off: usize) -> (r: i64)
    requires
        off + 8 <= buf@.len(),
    ensures
        r == signed(le(buf@, off as int, 8) as int, values64()),
{
    let n: u64 = read_le(buf, off, 8);
    if n < 0x8000_0000_0000_0000 {
        n as i64
    } else {
        -1 - (0xffff_ffff_ffff_ffff - n) as i64
    }
}

/// The signed four-byte number at `off`.
pub fn read_i32(buf: &[u8], off: usize) -> (r: i32)
    requires
        off + 4 <= buf@.len(),
    ensures
        r == signed(le(buf@, off as int, 4) as int, values32()),
{
    let n: u32 = read_u32(buf, off);
    if n < 0x8000_0000 {
        n as i32
    } else {
        -1 - (0xffff_ffff - n) as i32
    }
}

/// Reads a two's complement number of 64 bits as an unsigned one.
pub fn unsigned64(n: i64) -> (r: u64)
    ensures
        r as int == if n < 0 {
            n + values64()
        } else {
            n as int
        },
{
    if n < 0 {
        0xffff_ffff_ffff_ffff - (-1 - n) as u64
    } else {
        n as u64
    }
}

/// The bytes before the first zero byte.
pub open spec fn until_nul(bytes: Seq<u8>) -> Seq<u8>
    decreases bytes.len(),
{
    if bytes.len() == 0 || bytes[0] == 0 {
        seq![]
    } else {
        seq![bytes[0]] + until_nul(bytes.skip(1))
    }
}

proof fn lemma_until_nul(bytes: Seq<u8>, n: int)
    requires
        0 <= n <= bytes.len(),
        forall|i: int| 0 <= i < n ==> bytes[i] != 0,
        n == bytes.len() || bytes[n] == 0,
    ensures
        until_nul(bytes) == bytes.take(n),
    decreases n,
{
    if n > 0 {
        let rest = bytes.skip(1);
        assert forall|i: int| 0 <= i < n - 1 implies rest[i] != 0 by {
            assert(rest[i] == bytes[i + 1]);
        }
        lemma_until_nul(rest, n - 1);
        assert(bytes.take(n) =~= seq![bytes[0]] + rest.take(n - 1));
    } else {
        assert(bytes.take(0) =~= seq![]);
    }
}

/// The position of the first zero byte from `from` on, below `to`; `to` where
/// there is none.
pub fn find_nul(buf: &[u8], from: usize, to: usize) -> (r: usize)
    requires
        from <= to <= buf@.len(),
    ensures
        from <= r <= to,
        until_nul(buf@.subrange(from as int, to as int)) == buf@.subrange(from as int, r as int),
{
    let ghost part = buf@.subrange(from as int, to as int);
    let mut i: usize = from;
    while i < to && buf[i] != 0
        invariant
            from <= i <= to <= buf@.len(),
            part == buf@.subrange(from as int, to as int),
            forall|j: int| 0 <= j < i - from ==> part[j] != 0,
        decreases to - i,
    {
        assert(part[i - from] == buf@[i as int]);
        i += 1;
    }
    proof {
        if i < to {
            assert(part[i - from] == buf@[i as int]);
        }
        lemma_until_nul(part, i - from);
        assert(part.take(i - from) =~= buf@.subrange(from as int, i as int));
    }
    i
}

/// The text of bytes that are not UTF-8, with replacement characters for what is
/// not, as `String::from_utf8_lossy` has it.
pub uninterp spec fn repaired_utf8(bytes: Seq<u8>) -> Seq<char>;

/// The text that bytes hold: bytes that are UTF-8 are read as they are.
pub open spec fn lossy_text(bytes: Seq<u8>) -> Seq<char> {
    if valid_utf8(bytes) {
        decode_utf8(bytes)
    } else {
        repaired_utf8(bytes)
    }
}

/// `String::from_utf8_lossy`: bytes that are UTF-8 are read as they are; of
/// others, what is not UTF-8 is replaced.
#[verifier::external_body]
pub(crate) fn utf8_lossy(bytes: &[u8]) -> (r: String)
    ensures
        valid_utf8(bytes@) ==> r@ == decode_utf8(bytes@),
        !valid_utf8(bytes@) ==> r@ == repaired_utf8(bytes@),
{
    String::from_utf8_lossy(bytes).into_owned()
}

/// `std::str::from_utf8`: bytes that are UTF-8 as text.
#[verifier::external_body]
fn utf8_strict(bytes: &[u8]) -> (r: Option<&str>)
    ensures
        r is Some <==> valid_utf8(bytes@),
        r matches Some(s) ==> s@ == decode_utf8(bytes@),
{
    std::str::from_utf8(bytes).ok()
}

/// The text that starts at `off` and ends before a zero byte, where there is
/// one and the bytes are UTF-8.
pub open spec fn c_text(buf: Seq<u8>, off: int) -> Option<Seq<char>> {
    let bytes = until_nul(buf.skip(off));
    if off + bytes.len() < buf.len() && valid_utf8(bytes) {
        Some(decode_utf8(bytes))
    } else {
        None
    }
}

/// The text that starts at `off` and ends before a zero byte.
pub fn cstr_at(buf: &[u8], off: usize) -> (r: Option<&str>)
    requires
        off <= buf@.len(),
    ensures
        r is Some <==> c_text(buf@, off as int) is Some,
        r matches Some(s) ==> c_text(buf@, off as int) == Some(s@),
{
    let n: usize = buf.len();
    let end: usize = find_nul(buf, off, n);
    assert(buf@.skip(off as int) =~= buf@.subrange(off as int, n as int));
    if end == n {
        None
    } else {
        utf8_strict(slice_subrange(buf, off, end))
    }
}

/// The text of UTF-16 units among which there are surrogates: pairs are one
/// character, what is unpaired is replaced, as `String::from_utf16_lossy` has it.
pub uninterp spec fn paired_utf16(units: Seq<u16>) -> Seq<char>;

/// No unit is a surrogate.
pub open spec fn no_surrogates(units: Seq<u16>) -> bool {
    forall|i: int| 0 <= i < units.len() ==> !(0xd800 <= #[trigger] units[i] < 0xe000)
}

/// The text that UTF-16 units hold: units that are no surrogates are one
/// character each.
pub open spec fn utf16_text(units: Seq<u16>) -> Seq<char> {
    if no_surrogates(units) {
        Seq::new(units.len(), |i: int| units[i] as char)
    } else {
        paired_utf16(units)
    }
}

/// `String::from_utf16_lossy`: units that are no surrogates are one character
/// each; surrogates are paired, or replaced.
#[verifier::external_body]
pub(crate) fn utf16_lossy(units: &[u16]) -> (r: String)
    ensures
        no_surrogates(units@) ==> r@ == Seq::new(units@.len(), |i: int| units@[i] as char),
        !no_surrogates(units@) ==> r@ == paired_utf16(units@),
{
    String::from_utf16_lossy(units)
}

/// A number as `n` bytes, lowest first.
pub open spec fn le_bytes(value: nat, n: nat) -> Seq<u8>
    decreases n,
{
    if n == 0 {
        seq![]
    } else {
        seq![(value % 256) as u8] + le_bytes(value / 256, (n - 1) as nat)
    }
}

/// There are as many bytes as were asked for.
pub broadcast proof fn lemma_le_bytes_len(value: nat, n: nat)
    ensures
        #[trigger] le_bytes(value, n).len() == n,
    decreases n,
{
    if n > 0 {
        lemma_le_bytes_len(value / 256, (n - 1) as nat);
    }
}

/// A number reads the same from buffers that agree where it stands.
pub proof fn lemma_le_same(a: Seq<u8>, at: int, b: Seq<u8>, bt: int, n: nat)
    requires
        forall|i: int| 0 <= i < n ==> #[trigger] a[at + i] == b[bt + i],
    ensures
        le(a, at, n) == le(b, bt, n),
    decreases n,
{
    if n > 0 {
        assert(a[at + 0] == b[bt + 0]);
        assert forall|i: int| 0 <= i < n - 1 implies #[trigger] a[at + 1 + i] == b[bt + 1 + i] by {
            assert(a[at + (i + 1)] == b[bt + (i + 1)]);
        }
        lemma_le_same(a, at + 1, b, bt + 1, (n - 1) as nat);
    }
}

/// A number that is written reads back.
pub proof fn number_reads_back(value: nat, n: nat)
    requires
        value < pow256(n),
    ensures
        le(le_bytes(value, n), 0, n) == value,
    decreases n,
{
    if n > 0 {
        let rest = le_bytes(value / 256, (n - 1) as nat);
        let all = le_bytes(value, n);
        assert(value / 256 < pow256((n - 1) as nat)) by (nonlinear_arith)
            requires
                value < 256 * pow256((n - 1) as nat),
        ;
        number_reads_back(value / 256, (n - 1) as nat);
        assert forall|i: int| 0 <= i < n - 1 implies #[trigger] all[1 + i] == rest[0 + i] by {
            lemma_le_bytes_len(value / 256, (n - 1) as nat);
        }
        lemma_le_same(all, 1, rest, 0, (n - 1) as nat);
    }
}

/// A number that stands at `at` in a buffer reads back.
pub proof fn number_reads_back_at(buf: Seq<u8>, at: int, value: nat, n: nat)
    requires
        value < pow256(n),
        0 <= at,
        at + n <= buf.len(),
        buf.subrange(at, at + n) == le_bytes(value, n),
    ensures
        le(buf, at, n) == value,
{
    number_reads_back(value, n);
    lemma_le_bytes_len(value, n);
    assert forall|i: int| 0 <= i < n implies #[trigger] buf[at + i] == le_bytes(value, n)[0 + i] by {
        assert(buf.subrange(at, at + n)[i] == buf[at + i]);
    }
    lemma_le_same(buf, at, le_bytes(value, n), 0, n);
}

/// Bytes without a zero byte, before a zero byte or at the end, are what stands
/// before it.
pub proof fn lemma_until_nul_of(name: Seq<u8>, rest: Seq<u8>)
    requires
        forall|i: int| 0 <= i < name.len() ==> name[i] != 0,
        rest.len() == 0 || rest[0] == 0,
    ensures
        until_nul(name + rest) == name,
{
    let all = name + rest;
    assert forall|i: int| 0 <= i < name.len() implies all[i] != 0 by {
        assert(all[i] == name[i]);
    }
    if rest.len() > 0 {
        assert(all[name.len() as int] == rest[0]);
    }
    lemma_until_nul(all, name.len() as int);
    assert(all.take(name.len() as int) =~= name);
}

} // verus!

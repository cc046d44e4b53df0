//! Big-endian 16- and 32-bit samples as bytes.
use vstd::prelude::*;
use byteorder::{BigEndian, ByteOrder};

verus! {

/// The two bytes of `v`, most significant first.
pub open spec fn be16(v: u16) -> Seq<u8> {
    seq![(v / 0x100) as u8, (v % 0x100) as u8]
}

/// The four bytes of `v`, most significant first.
pub open spec fn be32(v: u32) -> Seq<u8> {
    seq![(v / 0x1000000) as u8, (v / 0x10000 % 0x100) as u8, (v / 0x100 % 0x100) as u8, (v % 0x100) as u8]
}

/// The number that two bytes spell, most significant first.
pub open spec fn from_be16(b0: u8, b1: u8) -> u16 {
    (b0 * 0x100 + b1) as u16
}

/// The number that four bytes spell, most significant first.
pub open spec fn from_be32(b0: u8, b1: u8, b2: u8, b3: u8) -> u32 {
    (((b0 * 0x100 + b1) * 0x100 + b2) * 0x100 + b3) as u32
}

/// The samples `vs` written one after the other, two bytes each.
pub open spec fn u16s_bytes(vs: Seq<u16>) -> Seq<u8> {
    Seq::new(2 * vs.len(), |k: int| be16(vs[k / 2])[k % 2])
}

/// The samples `vs` written one after the other, four bytes each.
pub open spec fn u32s_bytes(vs: Seq<u32>) -> Seq<u8> {
    Seq::new(4 * vs.len(), |k: int| be32(vs[k / 4])[k % 4])
}

/// The first `n` two-byte samples of `bytes`.
pub open spec fn read_u16s(bytes: Seq<u8>, n: nat) -> Seq<u16> {
    Seq::new(n, |i: int| from_be16(bytes[2 * i], bytes[2 * i + 1]))
}

/// The first `n` four-byte samples of `bytes`.
pub open spec fn read_u32s(bytes: Seq<u8>, n: nat) -> Seq<u32> {
    Seq::new(n, |i: int| from_be32(bytes[4 * i], bytes[4 * i + 1], bytes[4 * i + 2], bytes[4 * i + 3]))
}

/// Calls `byteorder::BigEndian::read_u16`, which reads the first two bytes
/// of `buf` as a number, most significant byte first; it panics on a
/// shorter buffer.
#[verifier::external_body]
fn read_be_u16(buf: &[u8]) -> (v: u16)
    requires
        buf@.len() >= 2,
    ensures
        v == from_be16(buf@[0], buf@[1]),
{
    BigEndian::read_u16(buf)
}

/// Calls `byteorder::BigEndian::read_u32`, which reads the first four bytes
/// of `buf` as a number, most significant byte first; it panics on a
/// shorter buffer.
#[verifier::external_body]
fn read_be_u32(buf: &[u8]) -> (v: u32)
    requires
        buf@.len() >= 4,
    ensures
        v == from_be32(buf@[0], buf@[1], buf@[2], buf@[3]),
{
    BigEndian::read_u32(buf)
}

/// Calls `byteorder::BigEndian::write_u16`, which stores `v` in the first two
/// bytes of a buffer, most significant byte first.
#[verifier::external_body]
fn be_bytes_u16(v: u16) -> (b: [u8; 2])
    ensures
        b@ == be16(v),
{
    let mut b = [0u8; 2];
    BigEndian::write_u16(&mut b, v);
    b
}

/// Calls `byteorder::BigEndian::write_u32`, which stores `v` in the first
/// four bytes of a buffer, most significant byte first.
#[verifier::external_body]
fn be_bytes_u32(v: u32) -> (b: [u8; 4])
    ensures
        b@ == be32(v),
{
    let mut b = [0u8; 4];
    BigEndian::write_u32(&mut b, v);
    b
}

/// Appends the samples `vs` to `out`, two bytes each, most significant first.
pub fn push_u16s(out: &mut Vec<u8>, vs: &[u16])
    ensures
        final(out)@ == old(out)@ + u16s_bytes(vs@),
{
    let ghost start = out@;
    let mut i: usize = 0;
    assert(u16s_bytes(vs@.take(0)) =~= Seq::<u8>::empty());
    while i < vs.len()
        invariant
            0 <= i <= vs@.len(),
            out@ == start + u16s_bytes(vs@.take(i as int)),
        decreases vs@.len() - i,
    {
        let b = be_bytes_u16(vs[i]);
        out.push(b[0]);
        out.push(b[1]);
        assert(u16s_bytes(vs@.take(i + 1)) =~= u16s_bytes(vs@.take(i as int)) + be16(vs@[i as int]));
        i = i + 1;
    }
    assert(vs@.take(i as int) =~= vs@);
}

/// Appends the samples `vs` to `out`, four bytes each, most significant
/// first.
pub fn push_u32s(out: &mut Vec<u8>, vs: &[u32])
    ensures
        final(out)@ == old(out)@ + u32s_bytes(vs@),
{
    let ghost start = out@;
    let mut i: usize = 0;
    assert(u32s_bytes(vs@.take(0)) =~= Seq::<u8>::empty());
    while i < vs.len()
        invariant
            0 <= i <= vs@.len(),
            out@ == start + u32s_bytes(vs@.take(i as int)),
        decreases vs@.len() - i,
    {
        let b = be_bytes_u32(vs[i]);
        out.push(b[0]);
        out.push(b[1]);
        out.push(b[2]);
        out.push(b[3]);
        assert(u32s_bytes(vs@.take(i + 1)) =~= u32s_bytes(vs@.take(i as int)) + be32(vs@[i as int]));
        i = i + 1;
    }
    assert(vs@.take(i as int) =~= vs@);
}

/// The `n` two-byte samples of `data` from byte `start` on.
pub fn read_u16s_at(data: &[u8], start: usize, n: usize) -> (res: Vec<u16>)
    requires
        start + 2 * n <= data@.len(),
    ensures
        res@ == read_u16s(data@.skip(start as int), n as nat),
{
    let mut res: Vec<u16> = Vec::new();
    let mut i: usize = 0;
    let len = data.len();
    while i < n
        invariant
            len == data@.len(),
            start + 2 * n <= data@.len(),
            0 <= i <= n,
            res@ == read_u16s(data@.skip(start as int), i as nat),
        decreases n - i,
    {
        let at = start + 2 * i;
        let v = read_be_u16(&data[at..at + 2]);
        res.push(v);
        assert(res@ =~= read_u16s(data@.skip(start as int), (i + 1) as nat));
        i = i + 1;
    }
    res
}

/// The `n` four-byte samples of `data` from byte `start` on.
pub fn read_u32s_at(data: &[u8], start: usize, n: usize) -> (res: Vec<u32>)
    requires
        start + 4 * n <= data@.len(),
    ensures
        res@ == read_u32s(data@.skip(start as int), n as nat),
{
    let mut res: Vec<u32> = Vec::new();
    let mut i: usize = 0;
    let len = data.len();
    while i < n
        invariant
            len == data@.len(),
            start + 4 * n <= data@.len(),
            0 <= i <= n,
            res@ == read_u32s(data@.skip(start as int), i as nat),
        decreases n - i,
    {
        let at = start + 4 * i;
        let v = read_be_u32(&data[at..at + 4]);
        res.push(v);
        assert(res@ =~= read_u32s(data@.skip(start as int), (i + 1) as nat));
        i = i + 1;
    }
    res
}

/// Two-byte samples read back as written, whatever follows them.
pub proof fn lemma_u16s_round_trip(vs: Seq<u16>, rest: Seq<u8>)
    ensures
        read_u16s(u16s_bytes(vs) + rest, vs.len()) == vs,
{
    let bytes = u16s_bytes(vs) + rest;
    assert forall|i: int| 0 <= i < vs.len() implies #[trigger] read_u16s(bytes, vs.len())[i] == vs[i] by {
        let v = vs[i];
        assert(bytes[2 * i] == be16(vs[(2 * i) / 2])[(2 * i) % 2]);
        assert(bytes[2 * i + 1] == be16(vs[(2 * i + 1) / 2])[(2 * i + 1) % 2]);
        assert((2 * i) / 2 == i && (2 * i) % 2 == 0 && (2 * i + 1) / 2 == i && (2 * i + 1) % 2 == 1);
    }
    assert(read_u16s(bytes, vs.len()) =~= vs);
}

/// Four-byte samples read back as written, whatever follows them.
pub proof fn lemma_u32s_round_trip(vs: Seq<u32>, rest: Seq<u8>)
    ensures
        read_u32s(u32s_bytes(vs) + rest, vs.len()) == vs,
{
    let bytes = u32s_bytes(vs) + rest;
    assert forall|i: int| 0 <= i < vs.len() implies #[trigger] read_u32s(bytes, vs.len())[i] == vs[i] by {
        assert((4 * i) / 4 == i && (4 * i) % 4 == 0);
        assert((4 * i + 1) / 4 == i && (4 * i + 1) % 4 == 1);
        assert((4 * i + 2) / 4 == i && (4 * i + 2) % 4 == 2);
        assert((4 * i + 3) / 4 == i && (4 * i + 3) % 4 == 3);
        assert(bytes[4 * i] == be32(vs[i])[0]);
        assert(bytes[4 * i + 1] == be32(vs[i])[1]);
        assert(bytes[4 * i + 2] == be32(vs[i])[2]);
        assert(bytes[4 * i + 3] == be32(vs[i])[3]);
    }
    assert(read_u32s(bytes, vs.len()) =~= vs);
}

} // verus!

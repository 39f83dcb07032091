//! The byte layout of a packet list, as mathematical sequences, and the
//! little-endian integer fields it is made of.
use vstd::prelude::*;

verus! {

/// Size of the packet-list header: the packet count as a `u32`.
pub const PACKET_LIST_HEADER_SIZE: usize = 4;

/// Size of a packet header: an 8-byte timestamp and a 2-byte data length.
pub const PACKET_HEADER_SIZE: usize = 10;

/// Packets must hold strictly fewer data bytes than this.
pub const MAX_PACKET_DATA_LENGTH: usize = 65535;

/// A packet in the abstract: its timestamp and its data bytes.
pub type PacketModel = (u64, Seq<u8>);

/// The two record alignments in use: 1 (no padding) and 4 (headers on
/// 4-byte boundaries, as on ARM).
pub open spec fn valid_alignment(alignment: nat) -> bool {
    alignment == 1 || alignment == 4
}

pub open spec fn u16_le(v: u16) -> Seq<u8> {
    seq![v as u8, (v >> 8u16) as u8]
}

pub open spec fn u32_le(v: u32) -> Seq<u8> {
    seq![v as u8, (v >> 8u32) as u8, (v >> 16u32) as u8, (v >> 24u32) as u8]
}

pub open spec fn u64_le(v: u64) -> Seq<u8> {
    seq![
        v as u8, (v >> 8u64) as u8, (v >> 16u64) as u8, (v >> 24u64) as u8,
        (v >> 32u64) as u8, (v >> 40u64) as u8, (v >> 48u64) as u8, (v >> 56u64) as u8,
    ]
}

/// `n` zero bytes.
pub open spec fn zeros(n: nat) -> Seq<u8> {
    Seq::new(n, |i: int| 0u8)
}

/// Number of padding bytes after a packet with `data_len` data bytes, so that
/// the next packet header starts on an `alignment` boundary.
pub open spec fn padding_len(data_len: nat, alignment: nat) -> nat
    recommends
        alignment > 0,
{
    ((alignment as int - (10 + data_len) as int % (alignment as int)) % (alignment as int)) as nat
}

/// The bytes of one packet: timestamp, data length, data.
pub open spec fn packet_bytes(p: PacketModel) -> Seq<u8> {
    u64_le(p.0) + u16_le(p.1.len() as u16) + p.1
}

/// Each packet followed by its padding.
pub open spec fn padded_packets(ps: Seq<PacketModel>, alignment: nat) -> Seq<u8>
    decreases ps.len(),
{
    if ps.len() == 0 {
        Seq::empty()
    } else {
        padded_packets(ps.drop_last(), alignment) + packet_bytes(ps.last()) + zeros(
            padding_len(ps.last().1.len(), alignment),
        )
    }
}

/// The packets as they follow the header: padding between consecutive
/// packets, none after the last one.
pub open spec fn packets_bytes(ps: Seq<PacketModel>, alignment: nat) -> Seq<u8> {
    if ps.len() == 0 {
        Seq::empty()
    } else {
        padded_packets(ps.drop_last(), alignment) + packet_bytes(ps.last())
    }
}

/// The whole encoded packet list: the count, then the packets.
pub open spec fn packet_list_bytes(ps: Seq<PacketModel>, alignment: nat) -> Seq<u8> {
    u32_le(ps.len() as u32) + packets_bytes(ps, alignment)
}

/// Packets that a packet list can hold: a count that fits its `u32` field,
/// and each packet's data length below the maximum.
pub open spec fn valid_packets(ps: Seq<PacketModel>) -> bool {
    &&& ps.len() <= u32::MAX
    &&& forall|i: int| 0 <= i < ps.len() ==> (#[trigger] ps[i]).1.len() < MAX_PACKET_DATA_LENGTH
}

pub proof fn lemma_u16_le_injective(a: u16, b: u16)
    requires
        u16_le(a) == u16_le(b),
    ensures
        a == b,
{
    let (a0, a1, b0, b1) = (u16_le(a)[0], u16_le(a)[1], u16_le(b)[0], u16_le(b)[1]);
    assert(a == b) by (bit_vector)
        requires
            a0 == a as u8,
            a1 == (a >> 8u16) as u8,
            b0 == b as u8,
            b1 == (b >> 8u16) as u8,
            a0 == b0,
            a1 == b1,
    ;
}

pub proof fn lemma_u32_le_injective(a: u32, b: u32)
    requires
        u32_le(a) == u32_le(b),
    ensures
        a == b,
{
    let (a0, a1, a2, a3) = (u32_le(a)[0], u32_le(a)[1], u32_le(a)[2], u32_le(a)[3]);
    let (b0, b1, b2, b3) = (u32_le(b)[0], u32_le(b)[1], u32_le(b)[2], u32_le(b)[3]);
    assert(a == b) by (bit_vector)
        requires
            a0 == a as u8,
            a1 == (a >> 8u32) as u8,
            a2 == (a >> 16u32) as u8,
            a3 == (a >> 24u32) as u8,
            b0 == b as u8,
            b1 == (b >> 8u32) as u8,
            b2 == (b >> 16u32) as u8,
            b3 == (b >> 24u32) as u8,
            a0 == b0,
            a1 == b1,
            a2 == b2,
            a3 == b3,
    ;
}

/// The padded packets fill whole alignment units.
pub proof fn lemma_padded_len_aligned(ps: Seq<PacketModel>, alignment: nat)
    requires
        valid_alignment(alignment),
    ensures
        padded_packets(ps, alignment).len() as int % (alignment as int) == 0,
    decreases ps.len(),
{
    if ps.len() > 0 {
        lemma_padded_len_aligned(ps.drop_last(), alignment);
    }
}

/// Padding all the packets of a prefix gives a prefix of the padded packets.
pub proof fn lemma_padded_prefix(ps: Seq<PacketModel>, alignment: nat, j: nat, k: nat)
    requires
        j <= k <= ps.len(),
    ensures
        padded_packets(ps.take(j as int), alignment).len() <= padded_packets(
            ps.take(k as int),
            alignment,
        ).len(),
        padded_packets(ps.take(k as int), alignment).subrange(
            0,
            padded_packets(ps.take(j as int), alignment).len() as int,
        ) == padded_packets(ps.take(j as int), alignment),
    decreases k - j,
{
    if j < k {
        lemma_padded_prefix(ps, alignment, j, (k - 1) as nat);
        assert(ps.take(k as int).drop_last() =~= ps.take(k - 1 as int));
        let a = padded_packets(ps.take(j as int), alignment);
        let b = padded_packets(ps.take(k - 1 as int), alignment);
        let c = padded_packets(ps.take(k as int), alignment);
        assert(c.subrange(0, a.len() as int) =~= b.subrange(0, a.len() as int));
    } else {
        let a = padded_packets(ps.take(j as int), alignment);
        assert(a.subrange(0, a.len() as int) =~= a);
    }
}

/// Where packet `i` stands in the packets' bytes: right after the padded
/// packets before it.
pub proof fn lemma_packet_at(ps: Seq<PacketModel>, alignment: nat, i: nat)
    requires
        i < ps.len(),
    ensures
        ({
            let start = padded_packets(ps.take(i as int), alignment).len();
            let all = packets_bytes(ps, alignment);
            &&& start + packet_bytes(ps[i as int]).len() <= all.len()
            &&& all.subrange(start as int, (start + packet_bytes(ps[i as int]).len()) as int)
                == packet_bytes(ps[i as int])
            &&& i + 1 < ps.len() ==> padded_packets(ps.take(i + 1 as int), alignment).len() <= all.len()
        }),
{
    let start = padded_packets(ps.take(i as int), alignment).len();
    let pb = packet_bytes(ps[i as int]);
    let all = packets_bytes(ps, alignment);
    let n = ps.len();
    assert(ps.take(i + 1 as int).drop_last() =~= ps.take(i as int));
    assert(ps.drop_last() =~= ps.take(n - 1 as int));
    let upto = padded_packets(ps.take(i + 1 as int), alignment);
    assert(upto.subrange(start as int, (start + pb.len()) as int) =~= pb);
    if i + 1 < n {
        lemma_padded_prefix(ps, alignment, i + 1, (n - 1) as nat);
        let before_last = padded_packets(ps.take(n - 1 as int), alignment);
        assert(all.subrange(start as int, (start + pb.len()) as int) =~= before_last.subrange(
            0,
            upto.len() as int,
        ).subrange(start as int, (start + pb.len()) as int));
    } else {
        assert(all.subrange(start as int, (start + pb.len()) as int) =~= pb);
    }
}

pub proof fn lemma_u64_le_injective(a: u64, b: u64)
    requires
        u64_le(a) == u64_le(b),
    ensures
        a == b,
{
    let (a0, a1, a2, a3) = (u64_le(a)[0], u64_le(a)[1], u64_le(a)[2], u64_le(a)[3]);
    let (a4, a5, a6, a7) = (u64_le(a)[4], u64_le(a)[5], u64_le(a)[6], u64_le(a)[7]);
    let (b0, b1, b2, b3) = (u64_le(b)[0], u64_le(b)[1], u64_le(b)[2], u64_le(b)[3]);
    let (b4, b5, b6, b7) = (u64_le(b)[4], u64_le(b)[5], u64_le(b)[6], u64_le(b)[7]);
    assert(a == b) by (bit_vector)
        requires
            a0 == a as u8,
            a1 == (a >> 8u64) as u8,
            a2 == (a >> 16u64) as u8,
            a3 == (a >> 24u64) as u8,
            a4 == (a >> 32u64) as u8,
            a5 == (a >> 40u64) as u8,
            a6 == (a >> 48u64) as u8,
            a7 == (a >> 56u64) as u8,
            b0 == b as u8,
            b1 == (b >> 8u64) as u8,
            b2 == (b >> 16u64) as u8,
            b3 == (b >> 24u64) as u8,
            b4 == (b >> 32u64) as u8,
            b5 == (b >> 40u64) as u8,
            b6 == (b >> 48u64) as u8,
            b7 == (b >> 56u64) as u8,
            a0 == b0,
            a1 == b1,
            a2 == b2,
            a3 == b3,
            a4 == b4,
            a5 == b5,
            a6 == b6,
            a7 == b7,
    ;
}

/// Appends `x` to `v` as two little-endian bytes.
pub(crate) fn push_u16_le(v: &mut Vec<u8>, x: u16)
    ensures
        final(v)@ == old(v)@ + u16_le(x),
{
    v.push(x as u8);
    v.push((x >> 8u16) as u8);
    assert(final(v)@ =~= old(v)@ + u16_le(x));
}

/// Appends `x` to `v` as eight little-endian bytes.
pub(crate) fn push_u64_le(v: &mut Vec<u8>, x: u64)
    ensures
        final(v)@ == old(v)@ + u64_le(x),
{
    v.push(x as u8);
    v.push((x >> 8u64) as u8);
    v.push((x >> 16u64) as u8);
    v.push((x >> 24u64) as u8);
    v.push((x >> 32u64) as u8);
    v.push((x >> 40u64) as u8);
    v.push((x >> 48u64) as u8);
    v.push((x >> 56u64) as u8);
    assert(final(v)@ =~= old(v)@ + u64_le(x));
}

/// Overwrites the first four bytes of `v` with `x` in little-endian order.
pub(crate) fn set_u32_le_at_start(v: &mut Vec<u8>, x: u32)
    requires
        old(v)@.len() >= 4,
    ensures
        final(v)@ == u32_le(x) + old(v)@.subrange(4, old(v)@.len() as int),
{
    v.set(0, x as u8);
    v.set(1, (x >> 8u32) as u8);
    v.set(2, (x >> 16u32) as u8);
    v.set(3, (x >> 24u32) as u8);
    assert(final(v)@ =~= u32_le(x) + old(v)@.subrange(4, old(v)@.len() as int));
}

/// Reads the little-endian `u16` at `at`.
pub(crate) fn read_u16_le(b: &[u8], at: usize) -> (r: u16)
    requires
        at + 2 <= b@.len(),
    ensures
        u16_le(r) == b@.subrange(at as int, at + 2),
{
    let b0 = b[at];
    let b1 = b[at + 1];
    let r = (b0 as u16) | ((b1 as u16) << 8u16);
    assert(r as u8 == b0 && (r >> 8u16) as u8 == b1) by (bit_vector)
        requires
            r == (b0 as u16) | ((b1 as u16) << 8u16),
    ;
    assert(u16_le(r) =~= b@.subrange(at as int, at + 2));
    r
}

/// Reads the little-endian `u32` at `at`.
pub(crate) fn read_u32_le(b: &[u8], at: usize) -> (r: u32)
    requires
        at + 4 <= b@.len(),
    ensures
        u32_le(r) == b@.subrange(at as int, at + 4),
{
    let b0 = b[at];
    let b1 = b[at + 1];
    let b2 = b[at + 2];
    let b3 = b[at + 3];
    let r = (b0 as u32) | ((b1 as u32) << 8u32) | ((b2 as u32) << 16u32) | ((b3 as u32) << 24u32);
    assert(r as u8 == b0 && (r >> 8u32) as u8 == b1 && (r >> 16u32) as u8 == b2 && (r >> 24u32)
        as u8 == b3) by (bit_vector)
        requires
            r == (b0 as u32) | ((b1 as u32) << 8u32) | ((b2 as u32) << 16u32) | ((b3 as u32)
                << 24u32),
    ;
    assert(u32_le(r) =~= b@.subrange(at as int, at + 4));
    r
}

/// Reads the little-endian `u64` at `at`.
pub(crate) fn read_u64_le(b: &[u8], at: usize) -> (r: u64)
    requires
        at + 8 <= b@.len(),
    ensures
        u64_le(r) == b@.subrange(at as int, at + 8),
{
    let b0 = b[at];
    let b1 = b[at + 1];
    let b2 = b[at + 2];
    let b3 = b[at + 3];
    let b4 = b[at + 4];
    let b5 = b[at + 5];
    let b6 = b[at + 6];
    let b7 = b[at + 7];
    let r = (b0 as u64) | ((b1 as u64) << 8u64) | ((b2 as u64) << 16u64) | ((b3 as u64) << 24u64)
        | ((b4 as u64) << 32u64) | ((b5 as u64) << 40u64) | ((b6 as u64) << 48u64) | ((b7 as u64)
        << 56u64);
    assert(r as u8 == b0 && (r >> 8u64) as u8 == b1 && (r >> 16u64) as u8 == b2 && (r >> 24u64)
        as u8 == b3 && (r >> 32u64) as u8 == b4 && (r >> 40u64) as u8 == b5 && (r >> 48u64) as u8
        == b6 && (r >> 56u64) as u8 == b7) by (bit_vector)
        requires
            r == (b0 as u64) | ((b1 as u64) << 8u64) | ((b2 as u64) << 16u64) | ((b3 as u64)
                << 24u64) | ((b4 as u64) << 32u64) | ((b5 as u64) << 40u64) | ((b6 as u64)
                << 48u64) | ((b7 as u64) << 56u64),
    ;
    assert(u64_le(r) =~= b@.subrange(at as int, at + 8));
    r
}

} // verus!

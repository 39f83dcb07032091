//! Packet views, packet-list views, their iterator, and the packet-list
//! builder.
use vstd::prelude::*;
use vstd::slice::slice_subrange;
use crate::layout::{
    lemma_packet_at, lemma_padded_len_aligned, lemma_u16_le_injective, lemma_u32_le_injective,
    lemma_u64_le_injective, packet_bytes, packet_list_bytes, packets_bytes, padded_packets,
    padding_len, push_u16_le, push_u64_le, read_u16_le, read_u32_le, read_u64_le,
    set_u32_le_at_start, u16_le, u32_le, u64_le, valid_alignment, valid_packets, zeros,
    PacketModel, MAX_PACKET_DATA_LENGTH, PACKET_HEADER_SIZE, PACKET_LIST_HEADER_SIZE,
};

verus! {

/// A tick count at which a packet is to be delivered; zero means "now".
pub type Timestamp = u64;

/// A view of one packet of a packet list: its timestamp and its data bytes,
/// borrowed from the list.
pub struct Packet<'a> {
    timestamp: Timestamp,
    data: &'a [u8],
}

impl<'a> View for Packet<'a> {
    type V = PacketModel;

    closed spec fn view(&self) -> PacketModel {
        (self.timestamp, self.data@)
    }
}

impl<'a> Packet<'a> {
    /// The packet's timestamp.
    pub fn timestamp(&self) -> (r: Timestamp)
        ensures
            r == self@.0,
    {
        self.timestamp
    }

    /// The packet's data bytes.
    pub fn data(&self) -> (r: &'a [u8])
        ensures
            r@ == self@.1,
    {
        self.data
    }
}

/// A read-only view of an encoded packet list: a `u32` count followed by the
/// packets, each packet header on an `alignment` boundary.
pub struct PacketList<'a> {
    data: &'a [u8],
    alignment: usize,
    packets: Ghost<Seq<PacketModel>>,
}

impl<'a> View for PacketList<'a> {
    type V = Seq<PacketModel>;

    closed spec fn view(&self) -> Seq<PacketModel> {
        self.packets@
    }
}

impl<'a> PacketList<'a> {
    #[verifier::type_invariant]
    spec fn wf(self) -> bool {
        &&& valid_alignment(self.alignment as nat)
        &&& valid_packets(self.packets@)
        &&& self.data@ == packet_list_bytes(self.packets@, self.alignment as nat)
    }

    /// The alignment that packet headers are padded to (1 or 4).
    pub closed spec fn spec_alignment(&self) -> nat {
        self.alignment as nat
    }

    /// The encoded packet list, as handed to or received from the MIDI
    /// services.
    pub fn as_bytes(&self) -> (r: &'a [u8])
        ensures
            r@ == packet_list_bytes(self@, self.spec_alignment()),
    {
        proof {
            use_type_invariant(self);
        }
        self.data
    }

    /// The number of packets in the list, read from its header.
    pub fn length(&self) -> (r: usize)
        ensures
            r == self@.len(),
    {
        proof {
            use_type_invariant(self);
            assert(self.data@.subrange(0, 4) =~= u32_le(self.packets@.len() as u32));
        }
        let count = read_u32_le(self.data, 0);
        proof {
            lemma_u32_le_injective(count, self.packets@.len() as u32);
        }
        count as usize
    }

    /// A fresh iterator over the packets, from the first one.
    pub fn iter(&self) -> (r: PacketListIterator<'a>)
        ensures
            r@ == self@,
    {
        proof {
            use_type_invariant(self);
            assert(self.packets@.take(0) =~= Seq::<PacketModel>::empty());
        }
        let remaining = self.length();
        PacketListIterator {
            data: self.data,
            alignment: self.alignment,
            remaining,
            offset: PACKET_LIST_HEADER_SIZE,
            packets: Ghost(self.packets@),
            index: Ghost(0),
        }
    }
}

/// Walks a packet list one packet at a time. Each step finds the next packet
/// header after the current packet's data, rounded up to the alignment.
pub struct PacketListIterator<'a> {
    data: &'a [u8],
    alignment: usize,
    remaining: usize,
    offset: usize,
    packets: Ghost<Seq<PacketModel>>,
    index: Ghost<nat>,
}

impl<'a> View for PacketListIterator<'a> {
    type V = Seq<PacketModel>;

    /// The packets not yet yielded.
    closed spec fn view(&self) -> Seq<PacketModel> {
        self.packets@.subrange(self.index@ as int, self.packets@.len() as int)
    }
}

impl<'a> PacketListIterator<'a> {
    #[verifier::type_invariant]
    spec fn wf(self) -> bool {
        &&& valid_alignment(self.alignment as nat)
        &&& valid_packets(self.packets@)
        &&& self.data@ == packet_list_bytes(self.packets@, self.alignment as nat)
        &&& self.index@ <= self.packets@.len()
        &&& self.remaining == self.packets@.len() - self.index@
        &&& self.index@ < self.packets@.len() ==> self.offset == 4 + padded_packets(
            self.packets@.take(self.index@ as int),
            self.alignment as nat,
        ).len()
    }

    /// The next packet, or `None` once every packet has been yielded.
    pub fn next(&mut self) -> (r: Option<Packet<'a>>)
        ensures
            old(self)@.len() == 0 ==> r.is_none() && final(self)@ == old(self)@,
            old(self)@.len() > 0 ==> r.is_some() && r.unwrap()@ == old(self)@[0] && final(self)@
                == old(self)@.drop_first(),
    {
        proof {
            use_type_invariant(&*self);
        }
        if self.remaining == 0 {
            return None;
        }
        let ghost ps = self.packets@;
        let ghost i = self.index@;
        let data: &'a [u8] = self.data;
        let alignment = self.alignment;
        let (packet, end) = read_packet(data, alignment, self.offset, Ghost(ps), Ghost(i));
        let remaining = self.remaining - 1;
        let next_offset = if remaining > 0 {
            next_packet_offset(data, alignment, end, Ghost(ps), Ghost(i))
        } else {
            end
        };
        *self = PacketListIterator {
            data,
            alignment,
            remaining,
            offset: next_offset,
            packets: Ghost(ps),
            index: Ghost(i + 1),
        };
        proof {
            assert(final(self)@ =~= old(self)@.drop_first());
        }
        Some(packet)
    }
}

/// A growable buffer that owns the bytes of a packet list under construction.
///
/// The buffer always holds a valid packet list: the count, then every packet
/// appended so far, in order, with padding between consecutive packets so
/// that each packet header starts on an `alignment` boundary.
///
/// The MIDI services accept packet lists of at most 65536 bytes; the buffer
/// itself does not enforce that bound, which is for the caller that sends it.
pub struct PacketBuffer {
    data: Vec<u8>,
    alignment: usize,
    packets: Ghost<Seq<PacketModel>>,
}

impl View for PacketBuffer {
    type V = Seq<PacketModel>;

    closed spec fn view(&self) -> Seq<PacketModel> {
        self.packets@
    }
}

impl PacketBuffer {
    #[verifier::type_invariant]
    spec fn wf(self) -> bool {
        &&& valid_alignment(self.alignment as nat)
        &&& valid_packets(self.packets@)
        &&& self.data@ == packet_list_bytes(self.packets@, self.alignment as nat)
    }

    /// The alignment that packet headers are padded to (1 or 4).
    pub closed spec fn spec_alignment(&self) -> nat {
        self.alignment as nat
    }

    /// The encoded bytes of the packet list.
    pub open spec fn spec_bytes(&self) -> Seq<u8> {
        packet_list_bytes(self@, self.spec_alignment())
    }

    /// The encoded packet list.
    pub fn as_bytes(&self) -> (r: &[u8])
        ensures
            r@ == self.spec_bytes(),
    {
        proof {
            use_type_invariant(self);
        }
        self.data.as_slice()
    }

    /// A view of the buffer as a packet list, valid until the next change.
    pub fn as_packet_list(&self) -> (r: PacketList<'_>)
        ensures
            r@ == self@,
            r.spec_alignment() == self.spec_alignment(),
    {
        proof {
            use_type_invariant(self);
        }
        PacketList { data: self.data.as_slice(), alignment: self.alignment, packets: self.packets }
    }

    /// An empty buffer whose packets are not padded.
    pub fn new() -> (r: PacketBuffer)
        ensures
            r@ == Seq::<PacketModel>::empty(),
            r.spec_alignment() == 1,
            r.spec_bytes() == seq![0u8, 0u8, 0u8, 0u8],
    {
        Self::with_alignment(1)
    }

    /// An empty buffer whose packet headers are aligned to `alignment` bytes.
    pub fn with_alignment(alignment: usize) -> (r: PacketBuffer)
        requires
            valid_alignment(alignment as nat),
        ensures
            r@ == Seq::<PacketModel>::empty(),
            r.spec_alignment() == alignment,
            r.spec_bytes() == seq![0u8, 0u8, 0u8, 0u8],
    {
        let mut data: Vec<u8> = Vec::with_capacity(
            PACKET_LIST_HEADER_SIZE + PACKET_HEADER_SIZE + 3,
        );
        data.push(0);
        data.push(0);
        data.push(0);
        data.push(0);
        let ghost packets = Seq::<PacketModel>::empty();
        assert(data@ =~= packet_list_bytes(packets, alignment as nat)) by {
            let z = 0u32;
            assert(z as u8 == 0 && (z >> 8u32) as u8 == 0 && (z >> 16u32) as u8 == 0 && (z
                >> 24u32) as u8 == 0) by (bit_vector)
                requires
                    z == 0,
            ;
            assert(u32_le(0u32) =~= seq![0u8, 0u8, 0u8, 0u8]);
        }
        PacketBuffer { data, alignment, packets: Ghost(packets) }
    }

    /// A buffer holding the single packet `(timestamp, data)`, not padded.
    pub fn from_data(timestamp: Timestamp, data: Vec<u8>) -> (r: PacketBuffer)
        requires
            data@.len() < MAX_PACKET_DATA_LENGTH,
        ensures
            r@ == seq![(timestamp, data@)],
            r.spec_alignment() == 1,
    {
        let r = Self::new().with_data(timestamp, data);
        assert(r@ =~= seq![(timestamp, data@)]);
        r
    }

    /// The buffer with one more packet, `(timestamp, data)`, appended.
    pub fn with_data(self, timestamp: Timestamp, data: Vec<u8>) -> (r: Self)
        requires
            data@.len() < MAX_PACKET_DATA_LENGTH,
            self@.len() < u32::MAX,
            self.spec_bytes().len() + PACKET_HEADER_SIZE + 3 + data@.len() <= usize::MAX,
        ensures
            r@ == self@.push((timestamp, data@)),
            r.spec_alignment() == self.spec_alignment(),
    {
        proof {
            use_type_invariant(&self);
        }
        let PacketBuffer { data: mut bytes, alignment, packets } = self;
        let ghost ps = packets@;
        let ghost a = alignment as nat;
        let ghost new_ps = ps.push((timestamp, data@));
        let data_len = data.len();
        let count = read_u32_le(bytes.as_slice(), 0);
        proof {
            assert(bytes@.subrange(0, 4) =~= u32_le(ps.len() as u32));
            lemma_u32_le_injective(count, ps.len() as u32);
        }
        bytes.reserve(PACKET_HEADER_SIZE + 3 + data_len);
        if count > 0 {
            pad_last_packet(&mut bytes, alignment, Ghost(ps));
        } else {
            proof {
                assert(padded_packets(ps, a) =~= Seq::<u8>::empty());
                assert(bytes@ =~= u32_le(0u32) + padded_packets(ps, a));
            }
        }
        // bytes@ is now the old count followed by all packets, each padded.
        assert(bytes@ == u32_le(count) + padded_packets(ps, a));
        push_u64_le(&mut bytes, timestamp);
        push_u16_le(&mut bytes, data_len as u16);
        let mut data = data;
        bytes.append(&mut data);
        set_u32_le_at_start(&mut bytes, count + 1);
        proof {
            assert(new_ps.drop_last() =~= ps);
            assert(bytes@ =~= packet_list_bytes(new_ps, a));
            assert forall|i: int| 0 <= i < new_ps.len() implies (#[trigger] new_ps[i]).1.len()
                < MAX_PACKET_DATA_LENGTH by {
                if i < ps.len() {
                    assert(new_ps[i] == ps[i]);
                }
            }
        }
        PacketBuffer { data: bytes, alignment, packets: Ghost(new_ps) }
    }
}

/// Reads packet `i` of `ps` from its encoding `data`, at `offset`; also
/// returns where the packet's data ends.
fn read_packet<'a>(
    data: &'a [u8],
    alignment: usize,
    offset: usize,
    Ghost(ps): Ghost<Seq<PacketModel>>,
    Ghost(i): Ghost<nat>,
) -> (r: (Packet<'a>, usize))
    requires
        valid_alignment(alignment as nat),
        valid_packets(ps),
        data@ == packet_list_bytes(ps, alignment as nat),
        i < ps.len(),
        offset == 4 + padded_packets(ps.take(i as int), alignment as nat).len(),
    ensures
        r.0@ == ps[i as int],
        r.1 == offset + PACKET_HEADER_SIZE + ps[i as int].1.len(),
{
    let ghost a = alignment as nat;
    let total = data.len();
    proof {
        lemma_packet_at(ps, a, i);
        assert(ps[i as int].1.len() < MAX_PACKET_DATA_LENGTH);
        let pb = packet_bytes(ps[i as int]);
        assert(data@.subrange(offset as int, offset + pb.len()) =~= pb);
        assert(offset + pb.len() <= total);
        assert(pb.subrange(0, 8) =~= u64_le(ps[i as int].0));
        assert(pb.subrange(8, 10) =~= u16_le(ps[i as int].1.len() as u16));
        assert(pb.subrange(10, pb.len() as int) =~= ps[i as int].1);
        assert(data@.subrange(offset as int, offset + 8) =~= pb.subrange(0, 8));
        assert(data@.subrange(offset + 8, offset + 10) =~= pb.subrange(8, 10));
        assert(data@.subrange(offset + 10, offset + pb.len()) =~= pb.subrange(
            10,
            pb.len() as int,
        ));
    }
    let timestamp = read_u64_le(data, offset);
    let len = read_u16_le(data, offset + 8);
    proof {
        lemma_u64_le_injective(timestamp, ps[i as int].0);
        lemma_u16_le_injective(len, ps[i as int].1.len() as u16);
    }
    let start = offset + PACKET_HEADER_SIZE;
    let end = start + len as usize;
    let payload = slice_subrange(data, start, end);
    (Packet { timestamp, data: payload }, end)
}

/// Where packet `i + 1` starts: the end of packet `i`'s data, rounded up to
/// the alignment.
fn next_packet_offset(
    data: &[u8],
    alignment: usize,
    end: usize,
    Ghost(ps): Ghost<Seq<PacketModel>>,
    Ghost(i): Ghost<nat>,
) -> (r: usize)
    requires
        valid_alignment(alignment as nat),
        data@ == packet_list_bytes(ps, alignment as nat),
        i + 1 < ps.len(),
        end == 4 + padded_packets(ps.take(i as int), alignment as nat).len() + PACKET_HEADER_SIZE
            + ps[i as int].1.len(),
    ensures
        r == 4 + padded_packets(ps.take(i + 1 as int), alignment as nat).len(),
{
    let ghost a = alignment as nat;
    let total = data.len();
    proof {
        lemma_packet_at(ps, a, i);
        let l = ps[i as int].1.len();
        let p = padded_packets(ps.take(i as int), a).len();
        lemma_padded_len_aligned(ps.take(i as int), a);
        lemma_round_up(p as int, l, a);
        assert(ps.take(i + 1 as int).drop_last() =~= ps.take(i as int));
    }
    let rem = end % alignment;
    if rem == 0 {
        end
    } else {
        end + (alignment - rem)
    }
}

/// Appends the padding that follows the last packet of `ps` once another
/// packet comes after it: the buffer's end is rounded up to `alignment`.
fn pad_last_packet(bytes: &mut Vec<u8>, alignment: usize, Ghost(ps): Ghost<Seq<PacketModel>>)
    requires
        valid_alignment(alignment as nat),
        ps.len() > 0,
        old(bytes)@ == packet_list_bytes(ps, alignment as nat),
        old(bytes)@.len() + 3 <= usize::MAX,
    ensures
        final(bytes)@ == u32_le(ps.len() as u32) + padded_packets(ps, alignment as nat),
{
    let ghost a = alignment as nat;
    let rem = bytes.len() % alignment;
    let pad: usize = if rem == 0 {
        0
    } else {
        alignment - rem
    };
    proof {
        let l = ps.last().1.len();
        let p = padded_packets(ps.drop_last(), a).len();
        lemma_padded_len_aligned(ps.drop_last(), a);
        assert(bytes@.len() == 4 + p + 10 + l);
        lemma_round_up(p as int, l, a);
    }
    let mut k: usize = 0;
    while k < pad
        invariant
            k <= pad,
            pad <= 3,
            bytes@ == packet_list_bytes(ps, a) + zeros(k as nat),
        decreases pad - k,
    {
        bytes.push(0);
        k = k + 1;
        assert(bytes@ =~= packet_list_bytes(ps, a) + zeros(k as nat));
    }
    assert(packets_bytes(ps, a) + zeros(pad as nat) =~= padded_packets(ps, a));
    assert(bytes@ =~= u32_le(ps.len() as u32) + padded_packets(ps, a));
}

/// Rounding the end of a packet up to the alignment gives its padding.
proof fn lemma_round_up(p: int, l: nat, a: nat)
    requires
        valid_alignment(a),
        p >= 0,
        p % (a as int) == 0,
    ensures
        ({
            let rem = (4 + p + 10 + l) % (a as int);
            padding_len(l, a) == if rem == 0 {
                0
            } else {
                a - rem
            }
        }),
        padding_len(l, a) <= 3,
{
    let x = (10 + l) as int;
    if a == 1 {
        assert((4 + p + x) % 1 == 0 && x % 1 == 0) by (nonlinear_arith);
    } else {
        assert((4 + p + x) % 4 == x % 4) by (nonlinear_arith)
            requires
                p % 4 == 0,
        ;
    }
}

} // verus!

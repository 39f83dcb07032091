//! Laws relating the builder, the list view and the iterator.
use vstd::prelude::*;
use crate::layout::{
    lemma_packet_at, lemma_u16_le_injective, lemma_u32_le_injective, lemma_u64_le_injective,
    packet_bytes, packet_list_bytes, packets_bytes, padded_packets, u16_le, u32_le, u64_le,
    valid_alignment, valid_packets, PacketModel, MAX_PACKET_DATA_LENGTH,
};

verus! {

/// The packets a buffer holds after appending each of `ps`, in order, to an
/// empty buffer (each append is `with_data`, which pushes one packet).
pub open spec fn after_appends(ps: Seq<PacketModel>) -> Seq<PacketModel>
    decreases ps.len(),
{
    if ps.len() == 0 {
        Seq::empty()
    } else {
        after_appends(ps.drop_last()).push(ps.last())
    }
}

/// After `N` appends to an empty buffer, the list holds `N` packets, so its
/// `length()` is `N`.
pub proof fn law_length_counts_appends(ps: Seq<PacketModel>)
    ensures
        after_appends(ps).len() == ps.len(),
    decreases ps.len(),
{
    if ps.len() > 0 {
        law_length_counts_appends(ps.drop_last());
    }
}

/// Iterating a buffer built by appends yields the appended packets in the
/// order they were appended, each with its own timestamp and data.
pub proof fn law_iteration_follows_appends(ps: Seq<PacketModel>)
    ensures
        after_appends(ps) == ps,
    decreases ps.len(),
{
    if ps.len() > 0 {
        law_iteration_follows_appends(ps.drop_last());
        assert(ps.drop_last().push(ps.last()) =~= ps);
    }
}

/// The encoding determines the packets: any two packet sequences laid out
/// in the same bytes, with the same alignment, are the same packets in the
/// same order. So a list encoded by any encoder that follows this layout
/// iterates exactly as one built here from the same packets.
pub proof fn law_layout_determines_packets(
    ps: Seq<PacketModel>,
    qs: Seq<PacketModel>,
    alignment: nat,
)
    requires
        valid_alignment(alignment),
        valid_packets(ps),
        valid_packets(qs),
        packet_list_bytes(ps, alignment) == packet_list_bytes(qs, alignment),
    ensures
        ps == qs,
{
    let bytes = packet_list_bytes(ps, alignment);
    assert(bytes.subrange(0, 4) =~= u32_le(ps.len() as u32));
    assert(packet_list_bytes(qs, alignment).subrange(0, 4) =~= u32_le(qs.len() as u32));
    lemma_u32_le_injective(ps.len() as u32, qs.len() as u32);
    assert(bytes.subrange(4, bytes.len() as int) =~= packets_bytes(ps, alignment));
    assert(packet_list_bytes(qs, alignment).subrange(4, bytes.len() as int) =~= packets_bytes(
        qs,
        alignment,
    ));
    lemma_same_prefix(ps, qs, alignment, ps.len());
    assert(ps.take(ps.len() as int) =~= ps);
    assert(qs.take(qs.len() as int) =~= qs);
}

proof fn lemma_same_prefix(ps: Seq<PacketModel>, qs: Seq<PacketModel>, alignment: nat, i: nat)
    requires
        valid_packets(ps),
        valid_packets(qs),
        ps.len() == qs.len(),
        i <= ps.len(),
        packets_bytes(ps, alignment) == packets_bytes(qs, alignment),
    ensures
        ps.take(i as int) == qs.take(i as int),
    decreases i,
{
    if i > 0 {
        let j = (i - 1) as nat;
        lemma_same_prefix(ps, qs, alignment, j);
        lemma_packet_at(ps, alignment, j);
        lemma_packet_at(qs, alignment, j);
        let all = packets_bytes(ps, alignment);
        let start = padded_packets(ps.take(j as int), alignment).len() as int;
        let p = ps[j as int];
        let q = qs[j as int];
        assert(p.1.len() < MAX_PACKET_DATA_LENGTH);
        assert(q.1.len() < MAX_PACKET_DATA_LENGTH);
        let pb = packet_bytes(p);
        let qb = packet_bytes(q);
        assert(pb.subrange(0, 8) =~= all.subrange(start, start + 8));
        assert(qb.subrange(0, 8) =~= all.subrange(start, start + 8));
        assert(pb.subrange(0, 8) =~= u64_le(p.0));
        assert(qb.subrange(0, 8) =~= u64_le(q.0));
        lemma_u64_le_injective(p.0, q.0);
        assert(pb.subrange(8, 10) =~= all.subrange(start + 8, start + 10));
        assert(qb.subrange(8, 10) =~= all.subrange(start + 8, start + 10));
        assert(pb.subrange(8, 10) =~= u16_le(p.1.len() as u16));
        assert(qb.subrange(8, 10) =~= u16_le(q.1.len() as u16));
        lemma_u16_le_injective(p.1.len() as u16, q.1.len() as u16);
        assert(p.1 =~= pb.subrange(10, pb.len() as int));
        assert(q.1 =~= qb.subrange(10, qb.len() as int));
        assert(pb =~= qb);
        assert(p == q);
        assert(ps.take(i as int) =~= ps.take(j as int).push(p));
        assert(qs.take(i as int) =~= qs.take(j as int).push(q));
    }
}

} // verus!

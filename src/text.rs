//! Human-readable rendering of packets and packet lists: timestamps and data
//! bytes in lower-case hexadecimal.
use vstd::prelude::*;
use crate::layout::PacketModel;
use crate::packets::{Packet, PacketList};

verus! {

/// The lower-case hexadecimal digit for `n` (below 16).
pub open spec fn hex_char(n: nat) -> char {
    if n < 10 {
        (48 + n) as char
    } else {
        (87 + n) as char
    }
}

/// The decimal digit for `n` (below 10).
pub open spec fn decimal_char(n: nat) -> char {
    (48 + n) as char
}

/// `v` as sixteen hexadecimal digits, most significant first.
pub open spec fn hex_u64_text(v: u64) -> Seq<char> {
    Seq::new(16, |i: int| hex_char(((v >> ((60 - 4 * i) as u64)) & 15u64) as nat))
}

/// `b` as two hexadecimal digits.
pub open spec fn hex_u8_text(b: u8) -> Seq<char> {
    seq![hex_char((b >> 4u8) as nat), hex_char((b & 15u8) as nat)]
}

/// `n` in decimal, without leading zeros.
pub open spec fn decimal_text(n: nat) -> Seq<char>
    decreases n,
{
    if n < 10 {
        seq![decimal_char(n)]
    } else {
        decimal_text(n / 10).push(decimal_char(n % 10))
    }
}

/// Each byte as a space and two hexadecimal digits.
pub open spec fn bytes_text(d: Seq<u8>) -> Seq<char>
    decreases d.len(),
{
    if d.len() == 0 {
        Seq::empty()
    } else {
        bytes_text(d.drop_last()) + seq![' '] + hex_u8_text(d.last())
    }
}

/// A packet as its timestamp, a colon, and its data bytes:
/// `0000000000000000: 90 40 7f`.
pub open spec fn packet_text(p: PacketModel) -> Seq<char> {
    hex_u64_text(p.0) + seq![':'] + bytes_text(p.1)
}

/// Each packet on a line of its own, indented by two spaces.
pub open spec fn packet_lines_text(ps: Seq<PacketModel>) -> Seq<char>
    decreases ps.len(),
{
    if ps.len() == 0 {
        Seq::empty()
    } else {
        packet_lines_text(ps.drop_last()) + seq!['\n', ' ', ' '] + packet_text(ps.last())
    }
}

/// A packet list as `PacketList(len=N)` followed by its packets' lines.
pub open spec fn packet_list_text(ps: Seq<PacketModel>) -> Seq<char> {
    seq!['P', 'a', 'c', 'k', 'e', 't', 'L', 'i', 's', 't', '(', 'l', 'e', 'n', '=']
        + decimal_text(ps.len()) + seq![')'] + packet_lines_text(ps)
}

/// Relies on `String::push`: appends one character at the end.
#[verifier::external_body]
fn push_ascii(s: &mut String, c: u8)
    requires
        c < 128,
    ensures
        final(s)@ == old(s)@.push(c as char),
{
    s.push(char::from(c));
}

fn push_hex_digit(s: &mut String, n: u8)
    requires
        n < 16,
    ensures
        final(s)@ == old(s)@.push(hex_char(n as nat)),
{
    if n < 10 {
        push_ascii(s, 48 + n);
    } else {
        push_ascii(s, 87 + n);
    }
}

fn push_hex_u64(s: &mut String, v: u64)
    ensures
        final(s)@ == old(s)@ + hex_u64_text(v),
{
    let ghost start = s@;
    let mut i: u64 = 0;
    while i < 16
        invariant
            i <= 16,
            s@ == start + hex_u64_text(v).take(i as int),
        decreases 16 - i,
    {
        let shift: u64 = 60 - 4 * i;
        let w = v >> shift;
        let n = w & 15;
        assert(n < 16) by (bit_vector)
            requires
                n == w & 15,
        ;
        push_hex_digit(s, n as u8);
        assert(hex_u64_text(v).take(i + 1) =~= hex_u64_text(v).take(i as int).push(
            hex_char(n as nat),
        ));
        i = i + 1;
    }
    assert(hex_u64_text(v).take(16) =~= hex_u64_text(v));
}

fn push_hex_u8(s: &mut String, b: u8)
    ensures
        final(s)@ == old(s)@ + hex_u8_text(b),
{
    let hi = b >> 4u8;
    let lo = b & 15u8;
    assert(hi < 16 && lo < 16) by (bit_vector)
        requires
            hi == b >> 4u8,
            lo == b & 15u8,
    ;
    push_hex_digit(s, hi);
    push_hex_digit(s, lo);
    assert(final(s)@ =~= old(s)@ + hex_u8_text(b));
}

fn push_decimal(s: &mut String, n: usize)
    ensures
        final(s)@ == old(s)@ + decimal_text(n as nat),
    decreases n,
{
    if n >= 10 {
        push_decimal(s, n / 10);
    }
    let d = (n % 10) as u8;
    push_ascii(s, 48 + d);
    assert(final(s)@ =~= old(s)@ + decimal_text(n as nat));
}

impl<'a> Packet<'a> {
    /// The packet as text: its timestamp in sixteen hexadecimal digits, a
    /// colon, then each data byte after a space in two hexadecimal digits.
    pub fn to_text(&self) -> (r: String)
        ensures
            r@ == packet_text(self@),
    {
        let mut s = String::new();
        self.push_text(&mut s);
        assert(s@ =~= packet_text(self@));
        s
    }

    fn push_text(&self, s: &mut String)
        ensures
            final(s)@ == old(s)@ + packet_text(self@),
    {
        let ghost start = s@;
        push_hex_u64(s, self.timestamp());
        push_ascii(s, 58);
        let data = self.data();
        let mut i: usize = 0;
        while i < data.len()
            invariant
                i <= data@.len(),
                data@ == self@.1,
                s@ == start + hex_u64_text(self@.0) + seq![':'] + bytes_text(data@.take(i as int)),
            decreases data@.len() - i,
        {
            push_ascii(s, 32);
            push_hex_u8(s, data[i]);
            assert(data@.take(i + 1).drop_last() =~= data@.take(i as int));
            i = i + 1;
        }
        assert(data@.take(i as int) =~= data@);
        assert(final(s)@ =~= old(s)@ + packet_text(self@));
    }
}

impl<'a> PacketList<'a> {
    /// The packet list as text: `PacketList(len=N)`, then each packet's text
    /// on a new line indented by two spaces.
    pub fn to_text(&self) -> (r: String)
        ensures
            r@ == packet_list_text(self@),
    {
        let mut s = String::new();
        push_ascii(&mut s, 80);
        push_ascii(&mut s, 97);
        push_ascii(&mut s, 99);
        push_ascii(&mut s, 107);
        push_ascii(&mut s, 101);
        push_ascii(&mut s, 116);
        push_ascii(&mut s, 76);
        push_ascii(&mut s, 105);
        push_ascii(&mut s, 115);
        push_ascii(&mut s, 116);
        push_ascii(&mut s, 40);
        push_ascii(&mut s, 108);
        push_ascii(&mut s, 101);
        push_ascii(&mut s, 110);
        push_ascii(&mut s, 61);
        push_decimal(&mut s, self.length());
        push_ascii(&mut s, 41);
        let ghost head = s@;
        let ghost ps = self@;
        let mut it = self.iter();
        let mut k: usize = 0;
        while k < self.length()
            invariant
                k <= ps.len(),
                it@ == ps.skip(k as int),
                self@ == ps,
                s@ == head + packet_lines_text(ps.take(k as int)),
            decreases ps.len() - k,
        {
            let p = it.next();
            assert(ps.skip(k as int)[0] == ps[k as int]);
            match p {
                Some(packet) => {
                    push_ascii(&mut s, 10);
                    push_ascii(&mut s, 32);
                    push_ascii(&mut s, 32);
                    packet.push_text(&mut s);
                },
                None => {},
            }
            assert(ps.take(k + 1).drop_last() =~= ps.take(k as int));
            assert(ps.skip(k as int).drop_first() =~= ps.skip(k + 1));
            k = k + 1;
        }
        assert(ps.take(k as int) =~= ps);
        assert(s@ =~= packet_list_text(ps));
        s
    }
}

} // verus!

use coremidi::{
    result_from_status, unit_result_from_status, Packet, PacketBuffer, PacketList, Timestamp,
    PACKET_HEADER_SIZE, PACKET_LIST_HEADER_SIZE,
};

/// Lays out a packet list by hand: the count, then each packet's timestamp,
/// length and data, padded so that each header starts on `alignment`.
fn reference_encoding(packets: &[(Timestamp, Vec<u8>)], alignment: usize) -> Vec<u8> {
    let mut out = Vec::new();
    out.extend_from_slice(&(packets.len() as u32).to_le_bytes());
    for (i, (ts, data)) in packets.iter().enumerate() {
        if i > 0 {
            while out.len() % alignment != 0 {
                out.push(0);
            }
        }
        out.extend_from_slice(&ts.to_le_bytes());
        out.extend_from_slice(&(data.len() as u16).to_le_bytes());
        out.extend_from_slice(data);
    }
    out
}

fn collect(list: &PacketList) -> Vec<(Timestamp, Vec<u8>)> {
    let mut out = Vec::new();
    let mut it = list.iter();
    while let Some(p) = it.next() {
        out.push((p.timestamp(), p.data().to_vec()));
    }
    out
}

fn build(packets: &[(Timestamp, Vec<u8>)], alignment: usize) -> PacketBuffer {
    let mut buf = PacketBuffer::with_alignment(alignment);
    for (ts, data) in packets {
        buf = buf.with_data(*ts, data.clone());
    }
    buf
}

fn check_against_reference(packets: Vec<(Timestamp, Vec<u8>)>) {
    for alignment in [1usize, 4] {
        let buf = build(&packets, alignment);
        let list = buf.as_packet_list();
        assert_eq!(list.as_bytes(), &reference_encoding(&packets, alignment)[..]);
        assert_eq!(packets.len(), list.length());
        assert_eq!(collect(&list), packets);
    }
}

#[test]
fn packet_struct_layout() {
    assert_eq!(PACKET_HEADER_SIZE, 10);
    assert_eq!(PACKET_LIST_HEADER_SIZE, 4);
    let buf = PacketBuffer::from_data(0, vec![0x90, 0x40, 0x7f]);
    let bytes = buf.as_bytes();
    assert_eq!(&bytes[PACKET_LIST_HEADER_SIZE + PACKET_HEADER_SIZE..], &[0x90, 0x40, 0x7f]);
}

#[test]
fn packet_buffer_new() {
    let packet_buf = PacketBuffer::new();
    assert_eq!(packet_buf.as_bytes().len(), 4);
    assert_eq!(packet_buf.as_bytes().to_vec(), vec![0x00, 0x00, 0x00, 0x00]);
}

#[test]
fn packet_buffer_with_data() {
    let packet_buf =
        PacketBuffer::new().with_data(0x0102030405060708 as Timestamp, vec![0x90u8, 0x40, 0x7f]);
    assert_eq!(packet_buf.as_bytes().len(), 17);
    assert_eq!(
        packet_buf.as_bytes().to_vec(),
        vec![
            0x01, 0x00, 0x00, 0x00, 0x08, 0x07, 0x06, 0x05, 0x04, 0x03, 0x02, 0x01, 0x03, 0x00,
            0x90, 0x40, 0x7f
        ]
    );
}

#[test]
fn packet_buffer_deref() {
    let packet_buf = PacketBuffer::new();
    let packet_list: PacketList = packet_buf.as_packet_list();
    assert!(std::ptr::eq(packet_list.as_bytes(), packet_buf.as_bytes()));
}

#[test]
fn packet_list_length() {
    let packet_buf = PacketBuffer::new()
        .with_data(0, vec![0x90u8, 0x40, 0x7f])
        .with_data(0, vec![0x91u8, 0x40, 0x7f])
        .with_data(0, vec![0x80u8, 0x40, 0x7f])
        .with_data(0, vec![0x81u8, 0x40, 0x7f]);
    assert_eq!(packet_buf.as_packet_list().length(), 4);
}

#[test]
fn compare_with_native1() {
    check_against_reference(vec![
        (0, vec![0x90, 0x40, 0x7f]),
        (0, vec![0x90, 0x41, 0x7f]),
        (0, vec![0x90, 0x42, 0x7f]),
    ]);
}

#[test]
fn compare_with_native2() {
    check_against_reference(vec![
        (0, vec![0x90, 0x40, 0x7f]),
        (1, vec![0x90, 0x40, 0x7f]),
        (2, vec![0x90, 0x40, 0x7f]),
    ]);
}

#[test]
fn compare_with_native3() {
    let mut sysex = vec![0xF0];
    for _ in 0..300 {
        sysex.push(0x00);
    }
    sysex.push(0xF7);
    check_against_reference(vec![
        (0, vec![0x90, 0x40, 0x7f]),
        (0, vec![0x90, 0x41, 0x7f]),
        (0, sysex),
    ]);
}

#[test]
fn length_counts_appends() {
    let mut buf = PacketBuffer::new();
    for n in 0..20u64 {
        assert_eq!(buf.as_packet_list().length(), n as usize);
        buf = buf.with_data(n, vec![0x90, n as u8]);
    }
    assert_eq!(buf.as_packet_list().length(), 20);
}

#[test]
fn empty_buffer_has_no_packets() {
    let buf = PacketBuffer::new();
    let list = buf.as_packet_list();
    assert_eq!(list.length(), 0);
    assert!(list.iter().next().is_none());
    let aligned = PacketBuffer::with_alignment(4);
    assert_eq!(aligned.as_bytes().to_vec(), vec![0, 0, 0, 0]);
}

#[test]
fn single_packet_round_trip() {
    let buf = PacketBuffer::from_data(0x0102030405060708, vec![0x90, 0x40, 0x7f]);
    let list = buf.as_packet_list();
    let mut it = list.iter();
    let p: Packet = it.next().unwrap();
    assert_eq!(p.timestamp(), 0x0102030405060708);
    assert_eq!(p.data(), &[0x90, 0x40, 0x7f]);
    assert!(it.next().is_none());
    assert!(it.next().is_none());
}

#[test]
fn four_packets_in_order() {
    let packets: Vec<(Timestamp, Vec<u8>)> = vec![
        (10, vec![0x90, 0x3c, 0x7f]),
        (20, vec![0x90, 0x40, 0x7f]),
        (30, vec![0x80, 0x3c, 0x00]),
        (40, vec![0x80, 0x40, 0x00]),
    ];
    let buf = build(&packets, 1);
    let list = buf.as_packet_list();
    assert_eq!(list.length(), 4);
    assert_eq!(collect(&list), packets);
    // The iterator starts afresh on each call.
    assert_eq!(collect(&list), packets);
}

#[test]
fn aligned_packets_are_padded_between() {
    let buf = PacketBuffer::with_alignment(4)
        .with_data(1, vec![0x90, 0x40, 0x7f])
        .with_data(2, vec![0xf8]);
    assert_eq!(
        buf.as_bytes().to_vec(),
        vec![
            2, 0, 0, 0, 1, 0, 0, 0, 0, 0, 0, 0, 3, 0, 0x90, 0x40, 0x7f, 0, 0, 0, 2, 0, 0, 0, 0,
            0, 0, 0, 1, 0, 0xf8
        ]
    );
    let list = buf.as_packet_list();
    assert_eq!(collect(&list), vec![(1, vec![0x90, 0x40, 0x7f]), (2, vec![0xf8])]);
}

#[test]
fn aligned_packets_without_padding_needed() {
    // 10 + 2 bytes already end on a 4-byte boundary.
    let buf = PacketBuffer::with_alignment(4).with_data(5, vec![1, 2]).with_data(6, vec![]);
    assert_eq!(buf.as_bytes().len(), 4 + 12 + 10);
    assert_eq!(collect(&buf.as_packet_list()), vec![(5, vec![1, 2]), (6, vec![])]);
}

#[test]
fn empty_and_largest_packets() {
    let big = vec![0xabu8; 65534];
    let packets = vec![(0, vec![]), (u64::MAX, big.clone()), (7, vec![0xf8])];
    check_against_reference(packets);
}

#[test]
fn packet_text() {
    let buf = PacketBuffer::from_data(0x1f, vec![0x90, 0x0a, 0x7f]);
    let list = buf.as_packet_list();
    let p = list.iter().next().unwrap();
    assert_eq!(p.to_text(), "000000000000001f: 90 0a 7f");
    let empty = PacketBuffer::from_data(0xfedcba9876543210, vec![]);
    let q = empty.as_packet_list().iter().next().unwrap().to_text();
    assert_eq!(q, "fedcba9876543210:");
}

#[test]
fn packet_list_text() {
    let chord = PacketBuffer::new()
        .with_data(0, vec![0x90, 0x3c, 0x7f])
        .with_data(0, vec![0x90, 0x40, 0x7f]);
    assert_eq!(
        chord.as_packet_list().to_text(),
        "PacketList(len=2)\n  0000000000000000: 90 3c 7f\n  0000000000000000: 90 40 7f"
    );
    assert_eq!(PacketBuffer::new().as_packet_list().to_text(), "PacketList(len=0)");
}

#[test]
fn packet_list_text_counts_in_decimal() {
    let mut buf = PacketBuffer::new();
    for _ in 0..123 {
        buf = buf.with_data(0, vec![]);
    }
    let text = buf.as_packet_list().to_text();
    assert!(text.starts_with("PacketList(len=123)\n  0000000000000000:\n"));
    assert_eq!(text.lines().count(), 124);
}

#[test]
fn status_zero_is_success() {
    assert_eq!(unit_result_from_status(0), Ok(()));
    assert_eq!(result_from_status(0, || 42u8), Ok(42));
}

#[test]
fn status_error_is_kept() {
    assert_eq!(unit_result_from_status(-10830), Err(-10830));
    assert_eq!(result_from_status(7, || 42u8), Err(7));
}

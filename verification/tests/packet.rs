use dabradio::crc::{crc16_ccitt, crc16_check};
use dabradio::packet::{encode_packet, DataGroup, PacketAssembler, PacketStats};

#[test]
fn crc_rejects_corrupt_packet() {
    let mut pkt = encode_packet(0, 0, 3, 852, b"hello");
    let mut assembler = PacketAssembler::new(852);
    assert_eq!(assembler.feed_bytes(&pkt).len(), 1);
    pkt[3] ^= 0xFF;
    assert!(assembler.feed_bytes(&pkt).is_empty());
    assert!(assembler.stats.crc_fail >= 1);
}

#[test]
fn single_packet_data_group() {
    let pkt = encode_packet(0, 0, 3, 852, b"TPEG");
    let mut assembler = PacketAssembler::new(852);
    let groups = assembler.feed_bytes(&pkt);
    assert_eq!(groups.len(), 1);
    assert_eq!(groups[0].bytes, b"TPEG");
}

#[test]
fn multi_packet_reassembly() {
    let first = encode_packet(0, 0, 2, 10, b"AAA");
    let mid = encode_packet(0, 1, 0, 10, b"BBB");
    let last = encode_packet(0, 2, 1, 10, b"CCC");
    let mut assembler = PacketAssembler::new(10);
    let mut buf = first;
    buf.extend_from_slice(&mid);
    buf.extend_from_slice(&last);
    let groups = assembler.feed_bytes(&buf);
    assert_eq!(groups.len(), 1);
    assert_eq!(groups[0].bytes, b"AAABBBCCC");
}

#[test]
fn wrong_address_is_ignored() {
    let pkt = encode_packet(0, 0, 3, 1, b"x");
    let mut assembler = PacketAssembler::new(852);
    assert!(assembler.feed_bytes(&pkt).is_empty());
    assert!(assembler.stats.address_mismatch >= 1);
    assert!(assembler.stats.crc_ok >= 1);
    assert_eq!(assembler.stats().address_mismatch, assembler.stats.address_mismatch);
}

#[test]
fn chance_level_detection() {
    let mut stats = PacketStats {
        packets_seen: 100,
        crc_ok: 1,
        crc_fail: 99,
        ..Default::default()
    };
    assert!(stats.is_chance_level());
    stats.crc_ok = 80;
    stats.crc_fail = 20;
    assert!(!stats.is_chance_level());
}

#[test]
fn chance_level_needs_64_packets_and_under_five_percent() {
    let stats = PacketStats { packets_seen: 63, ..Default::default() };
    assert!(!stats.is_chance_level());
    let stats = PacketStats { packets_seen: 100, crc_ok: 5, ..Default::default() };
    assert!(!stats.is_chance_level());
    let stats = PacketStats { packets_seen: 100, crc_ok: 4, ..Default::default() };
    assert!(stats.is_chance_level());
}

#[test]
fn crc16_check_value() {
    assert_eq!(crc16_ccitt(b"123456789"), 0xD64E);
    assert_eq!(crc16_ccitt(b""), 0x0000);
    assert!(crc16_check(&[0x31, 0x32, 0x33, 0x34, 0x35, 0x36, 0x37, 0x38, 0x39, 0xD6, 0x4E]));
    assert!(!crc16_check(&[0x31, 0x32, 0x33, 0x34, 0x35, 0x36, 0x37, 0x38, 0x39, 0xD6, 0x4F]));
    assert!(!crc16_check(&[0xFF]));
}

#[test]
fn encoded_packet_layout() {
    let pkt = encode_packet(1, 2, 3, 0x2AB, b"hi");
    assert_eq!(pkt.len(), 48);
    assert_eq!(pkt[0], (1 << 6) | (2 << 4) | (3 << 2) | 0x02);
    assert_eq!(pkt[1], 0xAB);
    assert_eq!(pkt[2], 2);
    assert_eq!(&pkt[3..5], b"hi");
    assert!(pkt[5..46].iter().all(|&b| b == 0));
    let crc = crc16_ccitt(&pkt[..46]);
    assert_eq!(pkt[46], (crc >> 8) as u8);
    assert_eq!(pkt[47], (crc & 0xFF) as u8);
    assert!(crc16_check(&pkt));
}

#[test]
fn continuity_gap_abandons_group() {
    let first = encode_packet(0, 0, 2, 10, b"AAA");
    let skipped = encode_packet(0, 2, 1, 10, b"CCC");
    let mut assembler = PacketAssembler::new(10);
    let mut buf = first;
    buf.extend_from_slice(&skipped);
    assert!(assembler.feed_bytes(&buf).is_empty());
    assert_eq!(assembler.stats.packets_seen, 2);
    assert_eq!(assembler.stats.crc_ok, 2);
    assert_eq!(assembler.stats.groups_complete, 0);
}

#[test]
fn last_without_first_is_dropped_and_stats_add_up() {
    let last = encode_packet(3, 0, 1, 7, b"zz");
    let single = encode_packet(2, 1, 3, 7, b"one");
    let mut assembler = PacketAssembler::new(7);
    let mut buf = last;
    buf.extend_from_slice(&single);
    buf.extend_from_slice(&[1, 2, 3]); // too short for another packet
    let groups = assembler.feed_bytes(&buf);
    assert_eq!(groups.len(), 1);
    assert_eq!(groups[0].address, 7);
    assert_eq!(groups[0].bytes, b"one");
    assert_eq!(assembler.stats.packets_seen, assembler.stats.crc_ok + assembler.stats.crc_fail);
    assert_eq!(assembler.stats.groups_complete, 1);
}

#[test]
fn truncated_packet_is_not_scanned() {
    let pkt = encode_packet(3, 0, 3, 5, b"abc");
    let mut assembler = PacketAssembler::new(5);
    assert!(assembler.feed_bytes(&pkt[..95]).is_empty());
    assert_eq!(assembler.stats.packets_seen, 0);
}

#[test]
fn application_payload_strips_header_and_crc() {
    // CRC flag and user access with a 2-byte address field.
    let g = DataGroup { address: 1, bytes: vec![0x50, 0x00, 0x02, 0xAA, 0xBB, 1, 2, 3, 0xC1, 0xC2] };
    assert_eq!(g.application_payload(), &[1, 2, 3]);
    // 16-bit extension and segment fields, no CRC.
    let g = DataGroup { address: 1, bytes: vec![0xA0, 0x00, 0x11, 0x22, 0x33, 0x44, 9, 8] };
    assert_eq!(g.application_payload(), &[9, 8]);
    let g = DataGroup { address: 1, bytes: vec![0x80, 0x00, 0x12, 0x34, b'x'] };
    assert_eq!(g.application_payload(), b"x");
    // Extension field announced but cut short.
    let g = DataGroup { address: 1, bytes: vec![0x80, 0x00, 0x12] };
    assert_eq!(g.application_payload(), &[0x80, 0x00, 0x12]);
    // Truncated header gives the whole buffer back.
    let g = DataGroup { address: 1, bytes: vec![0x10, 0x00] };
    assert_eq!(g.application_payload(), &[0x10, 0x00]);
    let g = DataGroup { address: 1, bytes: vec![7] };
    assert_eq!(g.application_payload(), &[7]);
}

#[test]
fn feeding_in_two_parts_equals_feeding_at_once() {
    let first = encode_packet(0, 0, 2, 10, b"AAA");
    let last = encode_packet(1, 1, 1, 10, b"BBB");
    let mut all = first.clone();
    all.extend_from_slice(&last);
    let mut one = PacketAssembler::new(10);
    let g1 = one.feed_bytes(&all);
    let mut two = PacketAssembler::new(10);
    let mut g2 = two.feed_bytes(&first);
    g2.extend(two.feed_bytes(&last));
    assert_eq!(g1.len(), 1);
    assert_eq!(g2.len(), 1);
    assert_eq!(g1[0].bytes, g2[0].bytes);
    assert_eq!(g1[0].bytes, b"AAABBB");
    assert_eq!(one.stats().packets_seen, two.stats().packets_seen);
    assert_eq!(one.stats().groups_complete, two.stats().groups_complete);
}

//! DAB packet-mode reassembly (ETSI EN 300 401 §5.3.2 / §5.3.3).
//!
//! MSC logical frames are a concatenation of 24/48/72/96-byte packets. Each
//! packet has a 3-byte header, a useful-data field, padding, and a 2-byte
//! CRC-16. Packets sharing an address are concatenated using First/Last
//! flags into an MSC data group.
//!
//! Packet header layout: length (2), continuity (2), first/last (2),
//! address (10), command (1), useful length (7).
use vstd::prelude::*;

use crate::crc::{crc16_ccitt, crc16_check, spec_crc16, spec_crc16_ok};

verus! {

/// Standard packet lengths in bytes (EN 300 401 Table 6).
pub const PACKET_LENGTHS: [usize; 4] = [24, 48, 72, 96];

/// Packet length selected by a two-bit length code.
pub open spec fn spec_packet_len(length_id: int) -> int {
    if length_id == 0 {
        24
    } else if length_id == 1 {
        48
    } else if length_id == 2 {
        72
    } else {
        96
    }
}

/// Statistics for CRC validation. A pass rate indistinguishable from
/// chance (1/65536 per check) means the MSC bits are still wrong.
#[derive(Debug, Clone, Copy)]
pub struct PacketStats {
    pub packets_seen: u64,
    pub crc_ok: u64,
    pub crc_fail: u64,
    pub address_mismatch: u64,
    pub groups_complete: u64,
}

/// All counters at zero.
pub open spec fn zero_stats() -> PacketStats {
    PacketStats { packets_seen: 0, crc_ok: 0, crc_fail: 0, address_mismatch: 0, groups_complete: 0 }
}

impl Default for PacketStats {
    fn default() -> (s: Self)
        ensures
            s == zero_stats(),
    {
        PacketStats { packets_seen: 0, crc_ok: 0, crc_fail: 0, address_mismatch: 0, groups_complete: 0 }
    }
}

impl PacketStats {
    /// True when at least 64 packets were seen and fewer than 5 % of them
    /// passed the CRC: a random bitstream scanned at known packet boundaries.
    pub fn is_chance_level(&self) -> (r: bool)
        ensures
            r == (self.packets_seen >= 64 && self.crc_ok * 20 < self.packets_seen),
    {
        self.packets_seen >= 64 && (self.crc_ok as u128) * 20 < self.packets_seen as u128
    }
}

/// One reassembled MSC data group (header + optional session header + data
/// + optional CRC), as raw bytes.
#[derive(Debug, Clone)]
pub struct DataGroup {
    pub address: u16,
    pub bytes: Vec<u8>,
}

/// The data field of an MSC data group (EN 300 401 §5.3.3.1): after the
/// two-byte header, the 16-bit extension field, the 16-bit segment field and
/// the user access field (one byte, then as many bytes as its length
/// indicator gives) that the flags in byte 0 announce, and before the trailing
/// CRC when the CRC flag is set. A header that does not fit gives the whole
/// buffer back.
pub open spec fn spec_data_field(b: Seq<u8>) -> Seq<u8> {
    if b.len() < 2 {
        b
    } else {
        let flags = b[0];
        let extension = flags & 0x80u8 != 0;
        let crc_flag = flags & 0x40u8 != 0;
        let segment = flags & 0x20u8 != 0;
        let user_access = flags & 0x10u8 != 0;
        if extension && b.len() <= 2 {
            b
        } else {
            let p1: int = if extension { 4 } else { 2 };
            let p2: int = if segment { p1 + 2 } else { p1 };
            if user_access && p2 >= b.len() {
                b
            } else {
                let p3: int = if user_access { p2 + 1 + (b[p2] & 0x0Fu8) } else { p2 };
                if p3 > b.len() {
                    b
                } else {
                    let end: int = if crc_flag && b.len() >= p3 + 2 { b.len() - 2 } else { b.len() as int };
                    b.subrange(p3, end)
                }
            }
        }
    }
}

impl DataGroup {
    /// Strip the MSC data-group header / CRC and return the application
    /// payload. Returns the full buffer if the header is truncated.
    pub fn application_payload(&self) -> (r: &[u8])
        ensures
            r@ == spec_data_field(self.bytes@),
    {
        strip_data_group_header(self.bytes.as_slice())
    }
}

/// Parse an MSC data-group header and return the data-field bytes.
fn strip_data_group_header(bytes: &[u8]) -> (r: &[u8])
    ensures
        r@ == spec_data_field(bytes@),
{
    if bytes.len() < 2 {
        return bytes;
    }
    let extension = bytes[0] & 0x80 != 0;
    let crc_flag = bytes[0] & 0x40 != 0;
    let segment = bytes[0] & 0x20 != 0;
    let user_access = bytes[0] & 0x10 != 0;
    let mut pos: usize = 2;
    if extension {
        if pos >= bytes.len() {
            return bytes;
        }
        pos += 2;
    }
    if segment {
        pos += 2;
    }
    if user_access {
        if pos >= bytes.len() {
            return bytes;
        }
        let length_indicator = (bytes[pos] & 0x0F) as usize;
        pos += 1 + length_indicator;
    }
    if pos > bytes.len() {
        return bytes;
    }
    let end = if crc_flag && bytes.len() >= pos + 2 {
        bytes.len() - 2
    } else {
        bytes.len()
    };
    if pos > end {
        let start = if pos < bytes.len() { pos } else { bytes.len() };
        vstd::slice::slice_subrange(bytes, start, bytes.len())
    } else {
        vstd::slice::slice_subrange(bytes, pos, end)
    }
}

// ---------------------------------------------------------------------------
// Packet header fields
// ---------------------------------------------------------------------------

/// Two-bit packet length code (byte 0, bits 7..6).
pub open spec fn hdr_length_id(pkt: Seq<u8>) -> u8 {
    (pkt[0] >> 6u8) & 0x03u8
}

/// Two-bit continuity index (byte 0, bits 5..4).
pub open spec fn hdr_continuity(pkt: Seq<u8>) -> u8 {
    (pkt[0] >> 4u8) & 0x03u8
}

/// First/last flags (byte 0, bits 3..2): 2 first, 0 intermediate, 1 last, 3 single.
pub open spec fn hdr_first_last(pkt: Seq<u8>) -> u8 {
    (pkt[0] >> 2u8) & 0x03u8
}

/// Ten-bit packet address (byte 0, bits 1..0, and byte 1).
pub open spec fn hdr_address(pkt: Seq<u8>) -> u16 {
    (((pkt[0] as u16) & 0x03u16) << 8u16) | pkt[1] as u16
}

/// Useful data length (byte 2, bits 6..0).
pub open spec fn hdr_useful(pkt: Seq<u8>) -> u8 {
    pkt[2] & 0x7Fu8
}

// ---------------------------------------------------------------------------
// Model of the assembler
// ---------------------------------------------------------------------------

/// What a `PacketAssembler` holds.
pub struct AsmModel {
    pub address: u16,
    pub assembling: bool,
    pub last_continuity: Option<u8>,
    pub buffer: Seq<u8>,
    pub stats: PacketStats,
}

/// A completed data group: its address and its bytes.
pub type GroupModel = (u16, Seq<u8>);

/// A fresh assembler for `address`.
pub open spec fn fresh(address: u16) -> AsmModel {
    AsmModel {
        address,
        assembling: false,
        last_continuity: None,
        buffer: Seq::empty(),
        stats: zero_stats(),
    }
}

/// No group in progress, nothing buffered.
pub open spec fn reset(s: AsmModel) -> AsmModel {
    AsmModel { assembling: false, buffer: Seq::empty(), ..s }
}

/// Statistics with room for `n` more increments of every counter.
pub open spec fn stats_room(st: PacketStats, n: int) -> bool {
    &&& st.packets_seen + n <= u64::MAX
    &&& st.crc_ok + n <= u64::MAX
    &&& st.crc_fail + n <= u64::MAX
    &&& st.address_mismatch + n <= u64::MAX
    &&& st.groups_complete + n <= u64::MAX
}

/// Statistics after one more packet.
pub open spec fn count_seen(st: PacketStats) -> PacketStats {
    PacketStats { packets_seen: (st.packets_seen + 1) as u64, ..st }
}

/// Statistics after one more CRC failure.
pub open spec fn count_crc_fail(st: PacketStats) -> PacketStats {
    PacketStats { crc_fail: (st.crc_fail + 1) as u64, ..st }
}

/// Statistics after one more CRC pass.
pub open spec fn count_crc_ok(st: PacketStats) -> PacketStats {
    PacketStats { crc_ok: (st.crc_ok + 1) as u64, ..st }
}

/// Statistics after one more packet for another address.
pub open spec fn count_mismatch(st: PacketStats) -> PacketStats {
    PacketStats { address_mismatch: (st.address_mismatch + 1) as u64, ..st }
}

/// Statistics after one more completed group.
pub open spec fn count_group(st: PacketStats) -> PacketStats {
    PacketStats { groups_complete: (st.groups_complete + 1) as u64, ..st }
}

/// One packet handled by the assembler: the new state and the data group
/// that the packet completes, if any.
pub open spec fn handle_spec(s: AsmModel, pkt: Seq<u8>) -> (AsmModel, Option<GroupModel>) {
    let seen = count_seen(s.stats);
    if !spec_crc16_ok(pkt) {
        (AsmModel { stats: count_crc_fail(seen), ..reset(s) }, None)
    } else {
        let ok = count_crc_ok(seen);
        let continuity = hdr_continuity(pkt);
        let first_last = hdr_first_last(pkt);
        let useful = hdr_useful(pkt) as int;
        if hdr_address(pkt) != s.address {
            (AsmModel { stats: count_mismatch(ok), ..s }, None)
        } else if useful + 5 > pkt.len() {
            (AsmModel { stats: ok, ..reset(s) }, None)
        } else {
            let payload = pkt.subrange(3, 3 + useful);
            let gap = s.last_continuity matches Some(prev) && continuity != (prev + 1) % 4
                && first_last != 2 && first_last != 3;
            let s1 = if gap { reset(s) } else { s };
            let s2 = AsmModel { last_continuity: Some(continuity), stats: ok, ..s1 };
            if first_last == 2 {
                (AsmModel { assembling: true, buffer: payload, ..s2 }, None)
            } else if first_last == 0 {
                if s2.assembling {
                    (AsmModel { buffer: s2.buffer + payload, ..s2 }, None)
                } else {
                    (s2, None)
                }
            } else if first_last == 1 {
                if s2.assembling {
                    (AsmModel { stats: count_group(ok), ..reset(s2) }, Some((s.address, s2.buffer + payload)))
                } else {
                    (s2, None)
                }
            } else {
                (AsmModel { assembling: false, stats: count_group(ok), ..s2 }, Some((s.address, payload)))
            }
        }
    }
}

/// The groups of an optional completed group.
pub open spec fn opt_groups(g: Option<GroupModel>) -> Seq<GroupModel> {
    match g {
        Some(x) => seq![x],
        None => Seq::empty(),
    }
}

/// The packets of `bytes` from offset `off` on, handled in order: each packet
/// starts with its header, its length follows from the length code, and the
/// scan stops at the first packet that does not fit (or leaves fewer than
/// five bytes).
pub open spec fn feed_spec(s: AsmModel, bytes: Seq<u8>, off: int) -> (AsmModel, Seq<GroupModel>)
    decreases bytes.len() - off,
{
    if off < 0 || off + 5 > bytes.len() {
        (s, Seq::empty())
    } else {
        let plen = spec_packet_len(((bytes[off] >> 6u8) & 0x03u8) as int);
        if off + plen > bytes.len() {
            (s, Seq::empty())
        } else {
            let (s1, g) = handle_spec(s, bytes.subrange(off, off + plen));
            let (s2, gs) = feed_spec(s1, bytes, off + plen);
            (s2, opt_groups(g) + gs)
        }
    }
}

/// A returned group carries the modelled address and bytes.
pub open spec fn group_is(g: DataGroup, m: GroupModel) -> bool {
    g.address == m.0 && g.bytes@ == m.1
}

/// Append `more` to `buf`.
fn append_bytes(buf: &mut Vec<u8>, more: &[u8])
    ensures
        final(buf)@ == old(buf)@ + more@,
{
    let ghost before = buf@;
    buf.extend_from_slice(more);
    assert forall|i: int| 0 <= i < buf@.len() implies #[trigger] buf@[i] == (before + more@)[i] by {
        if i >= before.len() {
            assert(cloned::<u8>(more@[i - before.len()], buf@[i]));
        }
    }
    assert(buf@ =~= before + more@);
}

/// Assemble packets for a single packet address.
pub struct PacketAssembler {
    address: u16,
    assembling: bool,
    last_continuity: Option<u8>,
    buffer: Vec<u8>,
    pub stats: PacketStats,
}

impl View for PacketAssembler {
    type V = AsmModel;

    closed spec fn view(&self) -> AsmModel {
        AsmModel {
            address: self.address,
            assembling: self.assembling,
            last_continuity: self.last_continuity,
            buffer: self.buffer@,
            stats: self.stats,
        }
    }
}

impl PacketAssembler {
    /// A fresh assembler for `address`, with zeroed statistics.
    pub fn new(address: u16) -> (r: Self)
        ensures
            r@ == fresh(address),
    {
        Self {
            address,
            assembling: false,
            last_continuity: None,
            buffer: Vec::new(),
            stats: PacketStats::default(),
        }
    }

    /// The CRC statistics gathered so far.
    pub fn stats(&self) -> (s: PacketStats)
        ensures
            s == self@.stats,
    {
        self.stats
    }

    /// Consume one MSC logical frame (decoded subchannel bytes) and return
    /// any completed data groups.
    pub fn feed_bytes(&mut self, bytes: &[u8]) -> (groups: Vec<DataGroup>)
        requires
            stats_room(old(self)@.stats, bytes@.len() as int),
        ensures
            ({
                let (s, gs) = feed_spec(old(self)@, bytes@, 0);
                &&& final(self)@ == s
                &&& groups@.len() == gs.len()
                &&& forall|i: int| 0 <= i < gs.len() ==> #[trigger] group_is(groups@[i], gs[i])
            }),
    {
        let mut groups: Vec<DataGroup> = Vec::new();
        let mut offset: usize = 0;
        let ghost mut acc: Seq<GroupModel> = Seq::empty();
        while bytes.len() >= 5 && offset <= bytes.len() - 5
            invariant
                0 <= offset <= bytes.len(),
                stats_room(self@.stats, bytes@.len() - offset),
                groups@.len() == acc.len(),
                forall|i: int| 0 <= i < acc.len() ==> #[trigger] group_is(groups@[i], acc[i]),
                ({
                    let (s0, gs0) = feed_spec(old(self)@, bytes@, 0);
                    let (s1, gs1) = feed_spec(self@, bytes@, offset as int);
                    s0 == s1 && gs0 == acc + gs1
                }),
                self@.address == old(self)@.address,
            ensures
                feed_spec(self@, bytes@, offset as int).0 == self@,
                feed_spec(self@, bytes@, offset as int).1 == Seq::<GroupModel>::empty(),
                groups@.len() == acc.len(),
                forall|i: int| 0 <= i < acc.len() ==> #[trigger] group_is(groups@[i], acc[i]),
                ({
                    let (s0, gs0) = feed_spec(old(self)@, bytes@, 0);
                    let (s1, gs1) = feed_spec(self@, bytes@, offset as int);
                    s0 == s1 && gs0 == acc + gs1
                }),
            decreases bytes.len() - offset,
        {
            let byte0 = bytes[offset];
            let length_id = (byte0 >> 6) & 0x03;
            assert(length_id < 4) by (bit_vector)
                requires
                    length_id == (byte0 >> 6u8) & 0x03u8,
            ;
            let packet_len = PACKET_LENGTHS[length_id as usize];
            assert(packet_len == spec_packet_len(length_id as int));
            if packet_len > bytes.len() - offset {
                break;
            }
            let packet = vstd::slice::slice_subrange(bytes, offset, offset + packet_len);
            let ghost (s1, g) = handle_spec(self@, packet@);
            let ghost acc_before = acc;
            let ghost next = feed_spec(s1, bytes@, offset + packet_len);
            assert(feed_spec(self@, bytes@, offset as int) == (next.0, opt_groups(g) + next.1));
            let r = self.handle_packet(packet);
            offset += packet_len;
            match r {
                Some(group) => {
                    groups.push(group);
                    proof {
                        acc = acc.push(g.unwrap());
                        assert(acc_before + (opt_groups(g) + next.1) =~= acc + next.1);
                    }
                },
                None => {
                    proof {
                        assert(acc_before + (opt_groups(g) + next.1) =~= acc + next.1);
                    }
                },
            }
            assert forall|i: int| 0 <= i < acc.len() implies #[trigger] group_is(groups@[i], acc[i]) by {
                if i < acc_before.len() {
                    assert(group_is(groups@[i], acc_before[i]));
                }
            }
        }
        proof {
            let (s1, gs1) = feed_spec(self@, bytes@, offset as int);
            assert(acc + gs1 =~= acc);
        }
        groups
    }

    fn handle_packet(&mut self, packet: &[u8]) -> (r: Option<DataGroup>)
        requires
            packet@.len() >= 5,
            stats_room(old(self)@.stats, 1),
        ensures
            ({
                let (s, g) = handle_spec(old(self)@, packet@);
                &&& final(self)@ == s
                &&& (r is Some <==> g is Some)
                &&& (r matches Some(x) ==> group_is(x, g.unwrap()))
            }),
    {
        self.stats.packets_seen += 1;
        if !crc16_check(packet) {
            self.stats.crc_fail += 1;
            self.assembling = false;
            self.buffer.clear();
            return None;
        }
        self.stats.crc_ok += 1;

        let continuity = (packet[0] >> 4) & 0x03;
        let first_last = (packet[0] >> 2) & 0x03;
        let address = (((packet[0] as u16) & 0x03) << 8) | packet[1] as u16;
        let useful = (packet[2] & 0x7F) as usize;

        if address != self.address {
            self.stats.address_mismatch += 1;
            return None;
        }
        if useful + 5 > packet.len() {
            self.assembling = false;
            self.buffer.clear();
            return None;
        }
        let payload = vstd::slice::slice_subrange(packet, 3, 3 + useful);

        match self.last_continuity {
            Some(prev) => {
                if continuity as u16 != (prev as u16 + 1) % 4 && first_last != 2 && first_last != 3 {
                    self.assembling = false;
                    self.buffer.clear();
                }
            },
            None => {},
        }
        self.last_continuity = Some(continuity);

        if first_last == 2 {
            // First packet of a series
            self.buffer.clear();
            append_bytes(&mut self.buffer, payload);
            self.assembling = true;
            None
        } else if first_last == 0 {
            if self.assembling {
                append_bytes(&mut self.buffer, payload);
            }
            None
        } else if first_last == 1 {
            if self.assembling {
                append_bytes(&mut self.buffer, payload);
                self.assembling = false;
                self.stats.groups_complete += 1;
                let mut bytes: Vec<u8> = Vec::new();
                std::mem::swap(&mut bytes, &mut self.buffer);
                Some(DataGroup { address, bytes })
            } else {
                None
            }
        } else {
            // Single packet = complete data group
            self.assembling = false;
            self.stats.groups_complete += 1;
            Some(DataGroup { address, bytes: vstd::slice::slice_to_vec(payload) })
        }
    }
}

// ---------------------------------------------------------------------------
// Packet construction
// ---------------------------------------------------------------------------

/// Header byte 0 of a packet.
pub open spec fn spec_header0(length_id: u8, continuity: u8, first_last: u8, address: u16) -> u8 {
    ((length_id << 6u8) | ((continuity & 0x03u8) << 4u8) | ((first_last & 0x03u8) << 2u8) | (((address
        >> 8u16) as u8) & 0x03u8)) as u8
}

/// A packet before its CRC: header, payload, zero padding, cut before the
/// two CRC bytes.
pub open spec fn spec_packet_body(length_id: u8, continuity: u8, first_last: u8, address: u16, payload: Seq<u8>) -> Seq<u8> {
    let plen = spec_packet_len(length_id as int);
    let header = seq![
        spec_header0(length_id, continuity, first_last, address),
        (address & 0xFFu16) as u8,
        (payload.len() as u8) & 0x7Fu8,
    ];
    (header + payload + Seq::new((plen - 3 - payload.len()) as nat, |i: int| 0u8)).take(plen - 2)
}

/// A well-formed packet: header, payload, zero padding and CRC-16.
pub open spec fn spec_encode_packet(length_id: u8, continuity: u8, first_last: u8, address: u16, payload: Seq<u8>) -> Seq<u8> {
    let body = spec_packet_body(length_id, continuity, first_last, address, payload);
    let crc = spec_crc16(body);
    body + seq![(crc >> 8u16) as u8, (crc & 0xFFu16) as u8]
}

/// Build a well-formed packet (header + payload + padding + CRC).
pub fn encode_packet(length_id: u8, continuity: u8, first_last: u8, address: u16, payload: &[u8]) -> (pkt: Vec<u8>)
    requires
        length_id < 4,
        payload@.len() + 3 <= spec_packet_len(length_id as int),
    ensures
        pkt@ == spec_encode_packet(length_id, continuity, first_last, address, payload@),
{
    let packet_len = PACKET_LENGTHS[length_id as usize];
    assert(packet_len == spec_packet_len(length_id as int));
    let mut pkt: Vec<u8> = vec![0u8; packet_len];
    pkt.set(0, (length_id << 6) | ((continuity & 0x03) << 4) | ((first_last & 0x03) << 2) | ((address >> 8) as u8
        & 0x03));
    pkt.set(1, (address & 0xFF) as u8);
    pkt.set(2, payload.len() as u8 & 0x7F);
    let ghost header = pkt@.take(3);
    let mut i: usize = 0;
    while i < payload.len()
        invariant
            0 <= i <= payload@.len(),
            payload@.len() + 3 <= packet_len,
            pkt@.len() == packet_len,
            pkt@.take(3) == header,
            forall|k: int| 0 <= k < i ==> #[trigger] pkt@[3 + k] == payload@[k],
            forall|k: int| 3 + i <= k < packet_len ==> #[trigger] pkt@[k] == 0u8,
        decreases payload.len() - i,
    {
        pkt.set(3 + i, payload[i]);
        proof {
            assert(pkt@.take(3) =~= header);
        }
        i += 1;
    }
    let ghost body = spec_packet_body(length_id, continuity, first_last, address, payload@);
    proof {
        let plen = packet_len as int;
        let hdr = seq![
            spec_header0(length_id, continuity, first_last, address),
            (address & 0xFFu16) as u8,
            (payload@.len() as u8) & 0x7Fu8,
        ];
        let zeros = Seq::new((plen - 3 - payload@.len()) as nat, |i: int| 0u8);
        let full = hdr + payload@ + zeros;
        assert(header[0] == pkt@[0] && header[1] == pkt@[1] && header[2] == pkt@[2]);
        assert forall|k: int| 0 <= k < plen - 2 implies #[trigger] pkt@[k] == full[k] by {
            if k < 3 {
                assert(pkt@[k] == header[k]);
            } else if k < 3 + payload@.len() {
                assert(pkt@[3 + (k - 3)] == payload@[k - 3]);
            }
        }
        assert(pkt@.take(plen - 2) =~= body);
    }
    let crc = crc16_ccitt(vstd::slice::slice_subrange(pkt.as_slice(), 0, packet_len - 2));
    pkt.set(packet_len - 2, (crc >> 8) as u8);
    pkt.set(packet_len - 1, (crc & 0xFF) as u8);
    proof {
        assert(pkt@ =~= spec_encode_packet(length_id, continuity, first_last, address, payload@));
    }
    pkt
}

} // verus!

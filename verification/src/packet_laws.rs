//! Laws of packet-mode reassembly: what the assembler gives back of the
//! packets that `encode_packet` builds, and how it keeps its statistics.
use vstd::prelude::*;

use crate::crc::{spec_crc16, spec_crc16_ok};
use crate::packet::{
    spec_data_field,
    fresh, zero_stats, PacketStats,
    reset, stats_room,
    feed_spec, handle_spec, hdr_address, hdr_continuity, hdr_first_last, hdr_useful, opt_groups,
    spec_encode_packet, spec_header0, spec_packet_body, spec_packet_len, AsmModel, GroupModel,
};

verus! {

proof fn lemma_header_bits(length_id: u8, continuity: u8, first_last: u8, address: u16)
    requires
        length_id < 4,
        address < 1024,
    ensures
        (spec_header0(length_id, continuity, first_last, address) >> 6u8) & 0x03u8 == length_id,
        (spec_header0(length_id, continuity, first_last, address) >> 4u8) & 0x03u8 == continuity & 0x03u8,
        (spec_header0(length_id, continuity, first_last, address) >> 2u8) & 0x03u8 == first_last & 0x03u8,
        ((((spec_header0(length_id, continuity, first_last, address) as u16) & 0x03u16) << 8u16) | (((address
            & 0xFFu16) as u8) as u16)) == address,
{
    let b0 = spec_header0(length_id, continuity, first_last, address);
    assert(b0 == ((length_id << 6u8) | ((continuity & 0x03u8) << 4u8) | ((first_last & 0x03u8) << 2u8) | (((
    address >> 8u16) as u8) & 0x03u8)) as u8);
    assert((b0 >> 6u8) & 0x03u8 == length_id) by (bit_vector)
        requires
            length_id < 4,
            b0 == ((length_id << 6u8) | ((continuity & 0x03u8) << 4u8) | ((first_last & 0x03u8) << 2u8) | (((
            address >> 8u16) as u8) & 0x03u8)) as u8,
    ;
    assert((b0 >> 4u8) & 0x03u8 == continuity & 0x03u8) by (bit_vector)
        requires
            length_id < 4,
            b0 == ((length_id << 6u8) | ((continuity & 0x03u8) << 4u8) | ((first_last & 0x03u8) << 2u8) | (((
            address >> 8u16) as u8) & 0x03u8)) as u8,
    ;
    assert((b0 >> 2u8) & 0x03u8 == first_last & 0x03u8) by (bit_vector)
        requires
            length_id < 4,
            b0 == ((length_id << 6u8) | ((continuity & 0x03u8) << 4u8) | ((first_last & 0x03u8) << 2u8) | (((
            address >> 8u16) as u8) & 0x03u8)) as u8,
    ;
    assert(((((b0 as u16) & 0x03u16) << 8u16) | (((address & 0xFFu16) as u8) as u16)) == address) by (bit_vector)
        requires
            length_id < 4,
            address < 1024,
            b0 == ((length_id << 6u8) | ((continuity & 0x03u8) << 4u8) | ((first_last & 0x03u8) << 2u8) | (((
            address >> 8u16) as u8) & 0x03u8)) as u8,
    ;
}

proof fn lemma_crc_bytes(crc: u16)
    ensures
        (((crc >> 8u16) as u8) as u16) * 256u16 + (((crc & 0xFFu16) as u8) as u16) == crc,
{
    assert((((crc >> 8u16) as u8) as u16) * 256u16 + (((crc & 0xFFu16) as u8) as u16) == crc) by (bit_vector);
}

proof fn lemma_useful_bits(n: u8)
    requires
        n < 128,
    ensures
        n & 0x7Fu8 == n,
{
    assert(n & 0x7Fu8 == n) by (bit_vector)
        requires
            n < 128,
    ;
}

/// Everything the assembler reads from a packet built by `encode_packet`.
pub proof fn lemma_encoded_packet(length_id: u8, continuity: u8, first_last: u8, address: u16, payload: Seq<u8>)
    requires
        length_id < 4,
        address < 1024,
        payload.len() + 5 <= spec_packet_len(length_id as int),
    ensures
        ({
            let pkt = spec_encode_packet(length_id, continuity, first_last, address, payload);
            &&& pkt.len() == spec_packet_len(length_id as int)
            &&& spec_packet_len(((pkt[0] >> 6u8) & 0x03u8) as int) == pkt.len()
            &&& spec_crc16_ok(pkt)
            &&& hdr_continuity(pkt) == continuity & 0x03u8
            &&& hdr_first_last(pkt) == first_last & 0x03u8
            &&& hdr_address(pkt) == address
            &&& hdr_useful(pkt) == payload.len()
            &&& pkt.subrange(3, 3 + payload.len() as int) == payload
        }),
{
    let plen = spec_packet_len(length_id as int);
    let body = spec_packet_body(length_id, continuity, first_last, address, payload);
    let pkt = spec_encode_packet(length_id, continuity, first_last, address, payload);
    let crc = spec_crc16(body);
    let hdr = seq![
        spec_header0(length_id, continuity, first_last, address),
        (address & 0xFFu16) as u8,
        (payload.len() as u8) & 0x7Fu8,
    ];
    let zeros = Seq::new((plen - 3 - payload.len()) as nat, |i: int| 0u8);
    assert(body == (hdr + payload + zeros).take(plen - 2));
    assert(pkt.len() == plen);
    assert(pkt[0] == hdr[0]);
    assert(pkt[1] == hdr[1]);
    assert(pkt[2] == hdr[2]);
    lemma_header_bits(length_id, continuity, first_last, address);
    lemma_useful_bits(payload.len() as u8);
    assert(pkt.take(plen - 2) =~= body);
    lemma_crc_bytes(crc);
    assert(pkt[plen - 2] == (crc >> 8u16) as u8);
    assert(pkt[plen - 1] == (crc & 0xFFu16) as u8);
    assert forall|k: int| 0 <= k < payload.len() implies #[trigger] pkt.subrange(3, 3 + payload.len() as int)[k] == payload[k] by {
        assert(pkt[3 + k] == (hdr + payload + zeros)[3 + k]);
    }
    assert(pkt.subrange(3, 3 + payload.len() as int) =~= payload);
}

/// Scanning from offset `a.len() + off` of `a + b` is scanning `b` from `off`.
proof fn lemma_feed_shift(s: AsmModel, a: Seq<u8>, b: Seq<u8>, off: int)
    requires
        off >= 0,
    ensures
        feed_spec(s, a + b, a.len() + off) == feed_spec(s, b, off),
    decreases b.len() - off,
{
    let ab = a + b;
    let o = a.len() + off;
    if off + 5 > b.len() {
    } else {
        assert(ab[o] == b[off]);
        let plen = spec_packet_len(((b[off] >> 6u8) & 0x03u8) as int);
        if off + plen <= b.len() {
            assert(ab.subrange(o, o + plen) =~= b.subrange(off, off + plen));
            let (s1, g) = handle_spec(s, b.subrange(off, off + plen));
            lemma_feed_shift(s1, a, b, off + plen);
        }
    }
}

/// A stream that starts with a whole packet: the packet is handled, then the rest.
pub proof fn lemma_feed_packet_then(s: AsmModel, pkt: Seq<u8>, rest: Seq<u8>)
    requires
        pkt.len() >= 5,
        spec_packet_len(((pkt[0] >> 6u8) & 0x03u8) as int) == pkt.len(),
    ensures
        ({
            let (s1, g) = handle_spec(s, pkt);
            let (s2, gs) = feed_spec(s1, rest, 0);
            feed_spec(s, pkt + rest, 0) == (s2, opt_groups(g) + gs)
        }),
{
    let all = pkt + rest;
    assert(all[0] == pkt[0]);
    assert(all.subrange(0, pkt.len() as int) =~= pkt);
    let (s1, g) = handle_spec(s, pkt);
    lemma_feed_shift(s1, pkt, rest, 0);
}

/// A stream that is exactly one packet.
pub proof fn lemma_feed_one_packet(s: AsmModel, pkt: Seq<u8>)
    requires
        pkt.len() >= 5,
        spec_packet_len(((pkt[0] >> 6u8) & 0x03u8) as int) == pkt.len(),
    ensures
        ({
            let (s1, g) = handle_spec(s, pkt);
            feed_spec(s, pkt, 0) == (s1, opt_groups(g))
        }),
{
    lemma_feed_packet_then(s, pkt, Seq::empty());
    assert(pkt + Seq::<u8>::empty() =~= pkt);
    let (s1, g) = handle_spec(s, pkt);
    assert(opt_groups(g) + Seq::<GroupModel>::empty() =~= opt_groups(g));
}

/// A single-packet data group comes back whole: feeding a packet that
/// `encode_packet` built with the "single" flag to an assembler for its
/// address yields exactly one group, the packet's payload.
pub proof fn lemma_single_packet_round_trip(s: AsmModel, length_id: u8, continuity: u8, payload: Seq<u8>)
    requires
        length_id < 4,
        s.address < 1024,
        payload.len() + 5 <= spec_packet_len(length_id as int),
    ensures
        feed_spec(s, spec_encode_packet(length_id, continuity, 3, s.address, payload), 0).1 == seq![
            (s.address, payload),
        ],
{
    let pkt = spec_encode_packet(length_id, continuity, 3, s.address, payload);
    lemma_encoded_packet(length_id, continuity, 3, s.address, payload);
    lemma_feed_one_packet(s, pkt);
    assert(3u8 & 0x03u8 == 3u8) by (bit_vector);
}

/// The payloads of a series, one after another.
pub open spec fn flatten(ps: Seq<Seq<u8>>) -> Seq<u8>
    decreases ps.len(),
{
    if ps.len() == 0 {
        Seq::empty()
    } else {
        ps[0] + flatten(ps.drop_first())
    }
}

/// The packets of a series after its first one: intermediate packets, then
/// the last one, with the continuity index counting on from `c`.
pub open spec fn series_rest(length_id: u8, c: u8, address: u16, ps: Seq<Seq<u8>>) -> Seq<u8>
    decreases ps.len(),
{
    if ps.len() == 0 {
        Seq::empty()
    } else if ps.len() == 1 {
        spec_encode_packet(length_id, c, 1, address, ps[0])
    } else {
        spec_encode_packet(length_id, c, 0, address, ps[0]) + series_rest(
            length_id,
            ((c + 1) % 4) as u8,
            address,
            ps.drop_first(),
        )
    }
}

/// A whole series of packets carrying one data group: a first packet, then
/// intermediate packets, then a last packet, with consecutive continuity
/// indices starting at `c`.
pub open spec fn series(length_id: u8, c: u8, address: u16, ps: Seq<Seq<u8>>) -> Seq<u8> {
    spec_encode_packet(length_id, c, 2, address, ps[0]) + series_rest(
        length_id,
        ((c + 1) % 4) as u8,
        address,
        ps.drop_first(),
    )
}

/// Every payload fits in a packet of the given length code.
pub open spec fn payloads_fit(length_id: u8, ps: Seq<Seq<u8>>) -> bool {
    forall|i: int| 0 <= i < ps.len() ==> #[trigger] ps[i].len() + 5 <= spec_packet_len(length_id as int)
}

proof fn lemma_small_continuity(c: u8)
    requires
        c < 4,
    ensures
        c & 0x03u8 == c,
        0u8 & 0x03u8 == 0u8,
        1u8 & 0x03u8 == 1u8,
        2u8 & 0x03u8 == 2u8,
{
    assert(c & 0x03u8 == c) by (bit_vector)
        requires
            c < 4,
    ;
    assert(0u8 & 0x03u8 == 0u8) by (bit_vector);
    assert(1u8 & 0x03u8 == 1u8) by (bit_vector);
    assert(2u8 & 0x03u8 == 2u8) by (bit_vector);
}

proof fn lemma_series_rest(s: AsmModel, length_id: u8, c: u8, ps: Seq<Seq<u8>>)
    requires
        length_id < 4,
        s.address < 1024,
        c < 4,
        s.assembling,
        s.last_continuity matches Some(prev) && c == (prev + 1) % 4,
        ps.len() >= 1,
        payloads_fit(length_id, ps),
    ensures
        feed_spec(s, series_rest(length_id, c, s.address, ps), 0).1 == seq![(s.address, s.buffer + flatten(ps))],
    decreases ps.len(),
{
    lemma_small_continuity(c);
    assert(ps[0].len() + 5 <= spec_packet_len(length_id as int));
    let p0 = ps[0];
    if ps.len() == 1 {
        let pkt = spec_encode_packet(length_id, c, 1, s.address, p0);
        lemma_encoded_packet(length_id, c, 1, s.address, p0);
        lemma_feed_one_packet(s, pkt);
        assert(ps.drop_first() =~= Seq::<Seq<u8>>::empty());
        assert(flatten(ps) =~= p0);
    } else {
        let pkt = spec_encode_packet(length_id, c, 0, s.address, p0);
        let rest = series_rest(length_id, ((c + 1) % 4) as u8, s.address, ps.drop_first());
        lemma_encoded_packet(length_id, c, 0, s.address, p0);
        lemma_feed_packet_then(s, pkt, rest);
        let (s1, g) = handle_spec(s, pkt);
        assert(g is None);
        assert(s1.assembling && s1.buffer == s.buffer + p0 && s1.last_continuity == Some(c));
        assert(payloads_fit(length_id, ps.drop_first())) by {
            assert forall|i: int| 0 <= i < ps.drop_first().len() implies #[trigger] ps.drop_first()[i].len() + 5
                <= spec_packet_len(length_id as int) by {
                assert(ps.drop_first()[i] == ps[i + 1]);
            }
        }
        lemma_series_rest(s1, length_id, ((c + 1) % 4) as u8, ps.drop_first());
        assert(s.buffer + p0 + flatten(ps.drop_first()) =~= s.buffer + flatten(ps));
        assert(opt_groups(g) + seq![(s.address, s1.buffer + flatten(ps.drop_first()))] =~= seq![
            (s.address, s.buffer + flatten(ps)),
        ]);
    }
}

/// A data group split over a series of packets comes back whole: feeding a
/// first packet, intermediate packets and a last packet with consecutive
/// continuity indices to an assembler for their address yields exactly one
/// group, the concatenation of their payloads.
pub proof fn lemma_series_round_trip(s: AsmModel, length_id: u8, c: u8, ps: Seq<Seq<u8>>)
    requires
        length_id < 4,
        s.address < 1024,
        c < 4,
        ps.len() >= 2,
        payloads_fit(length_id, ps),
    ensures
        feed_spec(s, series(length_id, c, s.address, ps), 0).1 == seq![(s.address, flatten(ps))],
{
    lemma_small_continuity(c);
    let p0 = ps[0];
    assert(p0.len() + 5 <= spec_packet_len(length_id as int));
    let pkt = spec_encode_packet(length_id, c, 2, s.address, p0);
    let rest = series_rest(length_id, ((c + 1) % 4) as u8, s.address, ps.drop_first());
    lemma_encoded_packet(length_id, c, 2, s.address, p0);
    lemma_feed_packet_then(s, pkt, rest);
    let (s1, g) = handle_spec(s, pkt);
    assert(g is None);
    assert(s1.assembling && s1.buffer == p0 && s1.last_continuity == Some(c));
    assert(payloads_fit(length_id, ps.drop_first())) by {
        assert forall|i: int| 0 <= i < ps.drop_first().len() implies #[trigger] ps.drop_first()[i].len() + 5
            <= spec_packet_len(length_id as int) by {
            assert(ps.drop_first()[i] == ps[i + 1]);
        }
    }
    lemma_series_rest(s1, length_id, ((c + 1) % 4) as u8, ps.drop_first());
    assert(opt_groups(g) + seq![(s.address, p0 + flatten(ps.drop_first()))] =~= seq![
        (s.address, flatten(ps)),
    ]);
}

/// A packet that fails its CRC completes no group, abandons the group in
/// progress and is counted as a CRC failure.
pub proof fn lemma_corrupt_packet_dropped(s: AsmModel, pkt: Seq<u8>)
    requires
        !spec_crc16_ok(pkt),
        stats_room(s.stats, 1),
    ensures
        ({
            let (s1, g) = handle_spec(s, pkt);
            &&& g is None
            &&& !s1.assembling
            &&& s1.buffer == Seq::<u8>::empty()
            &&& s1.last_continuity == s.last_continuity
            &&& s1.stats.crc_fail == s.stats.crc_fail + 1
            &&& s1.stats.crc_ok == s.stats.crc_ok
        }),
{
}

/// A packet for another address passes its CRC but is otherwise ignored:
/// no group, the group in progress untouched, and one more address mismatch.
pub proof fn lemma_foreign_packet_ignored(s: AsmModel, pkt: Seq<u8>)
    requires
        spec_crc16_ok(pkt),
        hdr_address(pkt) != s.address,
        stats_room(s.stats, 1),
    ensures
        ({
            let (s1, g) = handle_spec(s, pkt);
            &&& g is None
            &&& s1.assembling == s.assembling
            &&& s1.buffer == s.buffer
            &&& s1.last_continuity == s.last_continuity
            &&& s1.stats.address_mismatch == s.stats.address_mismatch + 1
            &&& s1.stats.crc_ok == s.stats.crc_ok + 1
        }),
{
}

/// Statistics keep count: every packet scanned is counted once as seen and
/// once as either a CRC pass or a CRC failure, every returned group is
/// counted as complete, and the assembler keeps its address.
pub proof fn lemma_feed_accounting(s: AsmModel, bytes: Seq<u8>, off: int)
    requires
        0 <= off <= bytes.len(),
        stats_room(s.stats, bytes.len() - off),
    ensures
        ({
            let (s1, gs) = feed_spec(s, bytes, off);
            &&& s1.stats.packets_seen - s.stats.packets_seen == (s1.stats.crc_ok - s.stats.crc_ok) + (
            s1.stats.crc_fail - s.stats.crc_fail)
            &&& s1.stats.groups_complete - s.stats.groups_complete == gs.len()
            &&& s1.address == s.address
            &&& s.stats.packets_seen <= s1.stats.packets_seen
        }),
    decreases bytes.len() - off,
{
    if off + 5 > bytes.len() {
    } else {
        let plen = spec_packet_len(((bytes[off] >> 6u8) & 0x03u8) as int);
        if off + plen <= bytes.len() {
            let (s1, g) = handle_spec(s, bytes.subrange(off, off + plen));
            assert(stats_room(s1.stats, bytes.len() - (off + plen)));
            lemma_feed_accounting(s1, bytes, off + plen);
        }
    }
}

/// `x` is a sequence of whole packets: each starts with its header and its
/// length code gives its length, and together they cover `x` exactly.
pub open spec fn whole_packets(x: Seq<u8>) -> bool
    decreases x.len(),
{
    if x.len() == 0 {
        true
    } else {
        let plen = spec_packet_len(((x[0] >> 6u8) & 0x03u8) as int);
        plen <= x.len() && whole_packets(x.skip(plen))
    }
}

/// Feeding whole packets `x` and then any bytes `y` is feeding `x ++ y`: the
/// same final state and the groups of `x` followed by those of `y`.
pub proof fn lemma_feed_split(s: AsmModel, x: Seq<u8>, y: Seq<u8>)
    requires
        whole_packets(x),
    ensures
        ({
            let (s1, gs1) = feed_spec(s, x, 0);
            let (s2, gs2) = feed_spec(s1, y, 0);
            feed_spec(s, x + y, 0) == (s2, gs1 + gs2)
        }),
    decreases x.len(),
{
    if x.len() == 0 {
        assert(x + y =~= y);
        let (s2, gs2) = feed_spec(s, y, 0);
        assert(Seq::<GroupModel>::empty() + gs2 =~= gs2);
    } else {
        let plen = spec_packet_len(((x[0] >> 6u8) & 0x03u8) as int);
        let pkt = x.take(plen);
        let rest = x.skip(plen);
        assert(pkt.len() >= 5);
        assert(pkt[0] == x[0]);
        assert(x =~= pkt + rest);
        assert(x + y =~= pkt + (rest + y));
        lemma_feed_packet_then(s, pkt, rest);
        lemma_feed_packet_then(s, pkt, rest + y);
        let (s1, g) = handle_spec(s, pkt);
        lemma_feed_split(s1, rest, y);
        let (s3, gs3) = feed_spec(s1, rest, 0);
        let (s4, gs4) = feed_spec(s3, y, 0);
        assert(opt_groups(g) + (gs3 + gs4) =~= (opt_groups(g) + gs3) + gs4);
    }
}

/// Statistics that an assembler reaches from a fresh start: every packet seen
/// passed or failed its CRC, and every packet that passed is counted at most
/// once as an address mismatch or a completed group.
pub open spec fn stats_consistent(st: PacketStats) -> bool {
    &&& st.packets_seen == st.crc_ok + st.crc_fail
    &&& st.address_mismatch + st.groups_complete <= st.crc_ok
}

/// One packet: how the statistics move, and when it completes a group.
pub proof fn lemma_handle_counts(s: AsmModel, pkt: Seq<u8>)
    requires
        stats_room(s.stats, 1),
    ensures
        ({
            let (s1, g) = handle_spec(s, pkt);
            let ok = spec_crc16_ok(pkt);
            let mismatch = ok && hdr_address(pkt) != s.address;
            &&& s1.stats.packets_seen == s.stats.packets_seen + 1
            &&& s1.stats.crc_ok == s.stats.crc_ok + if ok { 1int } else { 0 }
            &&& s1.stats.crc_fail == s.stats.crc_fail + if ok { 0int } else { 1 }
            &&& s1.stats.address_mismatch == s.stats.address_mismatch + if mismatch { 1int } else { 0 }
            &&& s1.stats.groups_complete == s.stats.groups_complete + if g is Some { 1int } else { 0 }
            &&& s1.address == s.address
            &&& (g is Some <==> {
                &&& ok
                &&& hdr_address(pkt) == s.address
                &&& hdr_useful(pkt) + 5 <= pkt.len()
                &&& (hdr_first_last(pkt) == 3 || (hdr_first_last(pkt) == 1 && s.assembling && !(
                s.last_continuity matches Some(prev) && hdr_continuity(pkt) != (prev + 1) % 4)))
            })
            &&& (g matches Some(x) ==> x == (s.address, if hdr_first_last(pkt) == 3 {
                pkt.subrange(3, 3 + hdr_useful(pkt))
            } else {
                s.buffer + pkt.subrange(3, 3 + hdr_useful(pkt))
            }))
        }),
{
    if pkt.len() > 0 {
        let b0 = pkt[0];
        assert((b0 >> 2u8) & 0x03u8 <= 3) by (bit_vector);
    }
}

/// Fresh statistics are consistent, and feeding bytes keeps them so; every
/// group returned carries the assembler's address.
pub proof fn lemma_feed_keeps_stats_consistent(s: AsmModel, bytes: Seq<u8>, off: int)
    requires
        0 <= off <= bytes.len(),
        stats_room(s.stats, bytes.len() - off),
        stats_consistent(s.stats),
    ensures
        stats_consistent(zero_stats()),
        stats_consistent(fresh(s.address).stats),
        ({
            let (s1, gs) = feed_spec(s, bytes, off);
            &&& stats_consistent(s1.stats)
            &&& forall|i: int| 0 <= i < gs.len() ==> (#[trigger] gs[i]).0 == s.address
        }),
    decreases bytes.len() - off,
{
    if off + 5 > bytes.len() {
    } else {
        let plen = spec_packet_len(((bytes[off] >> 6u8) & 0x03u8) as int);
        if off + plen <= bytes.len() {
            let pkt = bytes.subrange(off, off + plen);
            lemma_handle_counts(s, pkt);
            let (s1, g) = handle_spec(s, pkt);
            assert(stats_room(s1.stats, bytes.len() - (off + plen)));
            lemma_feed_keeps_stats_consistent(s1, bytes, off + plen);
            let (s2, gs2) = feed_spec(s1, bytes, off + plen);
            assert forall|i: int| 0 <= i < (opt_groups(g) + gs2).len() implies (#[trigger] (opt_groups(g)
                + gs2)[i]).0 == s.address by {
                if i > 0 || g is None {
                    assert((opt_groups(g) + gs2)[i] == gs2[i - opt_groups(g).len()]);
                }
            }
        }
    }
}

/// A packet that passes its CRC, carries the assembler's address and has
/// useful data that fits in it.
pub open spec fn accepted(s: AsmModel, pkt: Seq<u8>) -> bool {
    &&& spec_crc16_ok(pkt)
    &&& hdr_address(pkt) == s.address
    &&& hdr_useful(pkt) + 5 <= pkt.len()
}

/// The useful data of a packet.
pub open spec fn payload_of(pkt: Seq<u8>) -> Seq<u8> {
    pkt.subrange(3, 3 + hdr_useful(pkt))
}

/// The packet's continuity index follows the last one seen (or none was seen).
pub open spec fn continues(s: AsmModel, pkt: Seq<u8>) -> bool {
    s.last_continuity matches Some(prev) ==> hdr_continuity(pkt) == (prev + 1) % 4
}

proof fn lemma_first_last_bits(pkt: Seq<u8>)
    requires
        pkt.len() > 0,
    ensures
        hdr_first_last(pkt) <= 3,
{
    let b0 = pkt[0];
    assert((b0 >> 2u8) & 0x03u8 <= 3) by (bit_vector);
}

/// A group is in progress after a packet only if the packet is an accepted
/// First packet, or a group was already in progress and the packet either
/// belongs to another address (and is ignored) or is an accepted
/// intermediate packet whose continuity index follows the last one. The
/// bytes gathered are the First packet's data, or the bytes gathered before
/// followed by the intermediate packet's data.
pub proof fn lemma_group_in_progress(s: AsmModel, pkt: Seq<u8>)
    ensures
        ({
            let (s1, g) = handle_spec(s, pkt);
            s1.assembling ==> {
                ||| (accepted(s, pkt) && hdr_first_last(pkt) == 2 && s1.buffer == payload_of(pkt))
                ||| (s.assembling && spec_crc16_ok(pkt) && hdr_address(pkt) != s.address && s1.buffer
                    == s.buffer)
                ||| (s.assembling && accepted(s, pkt) && hdr_first_last(pkt) == 0 && continues(s, pkt)
                    && s1.buffer == s.buffer + payload_of(pkt))
            }
        }),
{
    if pkt.len() > 0 {
        lemma_first_last_bits(pkt);
    }
}

/// An intermediate packet never starts a group and never completes one; an
/// accepted one whose continuity index does not follow the last one
/// abandons the group in progress.
pub proof fn lemma_intermediate_packet(s: AsmModel, pkt: Seq<u8>)
    requires
        pkt.len() > 0,
        hdr_first_last(pkt) == 0,
    ensures
        ({
            let (s1, g) = handle_spec(s, pkt);
            &&& g is None
            &&& s1.assembling ==> s.assembling
            &&& (accepted(s, pkt) && !continues(s, pkt)) ==> !s1.assembling && s1.buffer == Seq::<u8>::empty()
            &&& (accepted(s, pkt) && continues(s, pkt) && s.assembling) ==> s1.assembling && s1.buffer
                == s.buffer + payload_of(pkt)
        }),
{
}

/// Where groups come from: a group is returned only for an accepted packet
/// of the assembler's address, and it is either a Single packet's data, or
/// the bytes of the group in progress followed by the data of a Last packet
/// whose continuity index follows the last one.
pub proof fn lemma_group_origin(s: AsmModel, pkt: Seq<u8>)
    ensures
        ({
            let (s1, g) = handle_spec(s, pkt);
            g matches Some(x) ==> {
                &&& accepted(s, pkt)
                &&& x.0 == s.address
                &&& !s1.assembling
                &&& {
                    ||| (hdr_first_last(pkt) == 3 && x.1 == payload_of(pkt))
                    ||| (hdr_first_last(pkt) == 1 && s.assembling && continues(s, pkt) && x.1 == s.buffer
                        + payload_of(pkt))
                }
            }
        }),
{
    if pkt.len() > 0 {
        lemma_first_last_bits(pkt);
    }
}

/// A Last packet whose continuity index does not follow the last one
/// completes nothing and abandons the group in progress.
pub proof fn lemma_last_packet_gap(s: AsmModel, pkt: Seq<u8>)
    requires
        pkt.len() > 0,
        hdr_first_last(pkt) == 1,
        !continues(s, pkt),
    ensures
        ({
            let (s1, g) = handle_spec(s, pkt);
            &&& g is None
            &&& accepted(s, pkt) ==> !s1.assembling && s1.buffer == Seq::<u8>::empty()
        }),
{
}

/// Length of the data-group extension field: 16 bits when byte 0 flags it.
pub open spec fn dg_extension_len(b: Seq<u8>) -> int {
    if b[0] & 0x80u8 != 0 { 2 } else { 0 }
}

/// Length of the segment field of the session header: 16 bits when flagged.
pub open spec fn dg_segment_len(b: Seq<u8>) -> int {
    if b[0] & 0x20u8 != 0 { 2 } else { 0 }
}

/// Offset of the user access field: after the two header bytes, the
/// extension field and the segment field.
pub open spec fn dg_user_access_at(b: Seq<u8>) -> int {
    2 + dg_extension_len(b) + dg_segment_len(b)
}

/// Length of the user access field when flagged: its first byte, whose low
/// nibble is the length indicator, then that many bytes.
pub open spec fn dg_user_access_len(b: Seq<u8>) -> int {
    if b[0] & 0x10u8 != 0 { 1 + (b[dg_user_access_at(b)] & 0x0Fu8) } else { 0 }
}

/// Offset of the data field.
pub open spec fn dg_data_at(b: Seq<u8>) -> int {
    dg_user_access_at(b) + dg_user_access_len(b)
}

/// All header fields that byte 0 announces are present.
pub open spec fn dg_header_fits(b: Seq<u8>) -> bool {
    &&& b.len() >= 2
    &&& (b[0] & 0x10u8 != 0 ==> dg_user_access_at(b) < b.len())
    &&& dg_data_at(b) <= b.len()
}

/// Layout of an MSC data group (EN 300 401 §5.3.3.1): the application
/// payload is what lies between the header fields (two header bytes, the
/// extension field, the segment field, then the user access field) and the
/// two CRC bytes when the CRC flag is set; a group whose announced header
/// fields do not all fit is returned whole.
pub proof fn lemma_data_field_layout(b: Seq<u8>)
    ensures
        !dg_header_fits(b) ==> spec_data_field(b) == b,
        dg_header_fits(b) ==> spec_data_field(b) == b.subrange(
            dg_data_at(b),
            if b[0] & 0x40u8 != 0 && b.len() >= dg_data_at(b) + 2 { b.len() - 2 } else { b.len() as int },
        ),
{
}

} // verus!

//! TCP segment-level logic: header packing and parsing and the pseudo-header
//! checksum, as plain functions over byte slices. A segment built here is
//! always a plain 20-byte TCP header (no options) in a plain 20-byte IPv4
//! header; a segment parsed here still honours the peer's own data-offset
//! field, since a real peer's SYN-ACK commonly carries options.
use vstd::prelude::*;
use crate::bytes::{be16_at, be32_at, write_bytes, fill_bytes, bytes_eq_at};
use crate::net::checksum::{checksum16_accumulate, checksum16_finish, finish_spec, checksum_spec, word_sum, lemma_word_sum_bound, lemma_checksum_fills_to_zero};
use crate::net::proto::{ETH_HEADER_LEN, IPV4_HEADER_LEN, IPV4_VER_IHL_NO_OPTIONS, ETHERTYPE_IPV4_HI, ETHERTYPE_IPV4_LO, MIN_FRAME_LEN, DEFAULT_TTL, padded_len, pad_to_min_frame, is_ipv4_ethertype};

verus! {

pub const HEADER_LEN: usize = 20;
pub const FLAG_FIN: u8 = 0x01;
pub const FLAG_SYN: u8 = 0x02;
pub const FLAG_RST: u8 = 0x04;
pub const FLAG_PSH: u8 = 0x08;
pub const FLAG_ACK: u8 = 0x10;
pub const IP_PROTO_TCP: u8 = 6;
/// Offset of the TCP header within a frame.
pub const TCP_OFFSET: usize = 34;
/// Longest payload `build_segment` accepts: what an IPv4 datagram's 16-bit
/// length field can describe.
pub const MAX_BUILD_PAYLOAD: usize = 0xFFFF - 40;

/// A parsed segment's fields, borrowing its payload out of the frame
/// buffer it was parsed from.
pub struct Segment<'a> {
    pub src_port: u16,
    pub dst_port: u16,
    pub seq: u32,
    pub ack: u32,
    pub flags: u8,
    pub window: u16,
    pub payload: &'a [u8],
}

/// The mathematical content of a segment.
pub struct SegmentModel {
    pub src_port: u16,
    pub dst_port: u16,
    pub seq: u32,
    pub ack: u32,
    pub flags: u8,
    pub window: u16,
    pub payload: Seq<u8>,
}

impl<'a> View for Segment<'a> {
    type V = SegmentModel;

    open spec fn view(&self) -> SegmentModel {
        SegmentModel {
            src_port: self.src_port,
            dst_port: self.dst_port,
            seq: self.seq,
            ack: self.ack,
            flags: self.flags,
            window: self.window,
            payload: self.payload@,
        }
    }
}

// ---------------------------------------------------------------------
// Building.
// ---------------------------------------------------------------------

/// Big-endian bytes of a 16-bit quantity.
pub open spec fn be16_seq(v: nat) -> Seq<u8> {
    seq![(v / 256) as u8, (v % 256) as u8]
}

/// Big-endian bytes of a 32-bit quantity.
pub open spec fn be32_seq(v: nat) -> Seq<u8> {
    seq![(v / 0x1000000) as u8, ((v / 0x10000) % 256) as u8, ((v / 256) % 256) as u8, (v % 256) as u8]
}

/// The IPv4 header `build_segment` writes, checksum field still zero.
pub open spec fn ip_header_for(payload_len: nat, my_ip: Seq<u8>, peer_ip: Seq<u8>) -> Seq<u8> {
    seq![IPV4_VER_IHL_NO_OPTIONS, 0u8] + be16_seq((40 + payload_len) % 0x10000) + seq![0u8, 0u8, 0u8, 0u8, DEFAULT_TTL, IP_PROTO_TCP, 0u8, 0u8]
        + my_ip + peer_ip
}

/// The TCP header `build_segment` writes, checksum field still zero.
pub open spec fn tcp_header_for(src_port: u16, dst_port: u16, seq: u32, ack: u32, flags: u8, window: u16) -> Seq<u8> {
    be16_seq(src_port as nat) + be16_seq(dst_port as nat) + be32_seq(seq as nat) + be32_seq(ack as nat) + seq![0x50u8, flags]
        + be16_seq(window as nat) + seq![0u8, 0u8, 0u8, 0u8]
}

/// The pseudo-header the TCP checksum covers besides the segment itself.
pub open spec fn pseudo_header(my_ip: Seq<u8>, peer_ip: Seq<u8>, payload_len: nat) -> Seq<u8> {
    my_ip + peer_ip + seq![0u8, IP_PROTO_TCP] + be16_seq((20 + payload_len) % 0x10000)
}

/// The TCP checksum of a segment with header `hdr` and `payload`.
pub open spec fn tcp_checksum(pseudo: Seq<u8>, hdr: Seq<u8>, payload: Seq<u8>) -> u16 {
    finish_spec(word_sum(pseudo) + word_sum(hdr + payload))
}

/// The frame `build_segment` writes over `b`.
pub open spec fn segment_frame(
    b: Seq<u8>,
    my_mac: Seq<u8>,
    my_ip: Seq<u8>,
    peer_mac: Seq<u8>,
    peer_ip: Seq<u8>,
    src_port: u16,
    dst_port: u16,
    seq: u32,
    ack: u32,
    flags: u8,
    window: u16,
    payload: Seq<u8>,
) -> Seq<u8> {
    let iph = ip_header_for(payload.len(), my_ip, peer_ip);
    let tcph = tcp_header_for(src_port, dst_port, seq, ack, flags, window);
    let ips = checksum_spec(iph);
    let tcs = tcp_checksum(pseudo_header(my_ip, peer_ip, payload.len()), tcph, payload);
    let end = 54 + payload.len();
    Seq::new(
        b.len(),
        |i: int|
            if i < 6 {
                peer_mac[i]
            } else if i < 12 {
                my_mac[i - 6]
            } else if i == 12 {
                ETHERTYPE_IPV4_HI
            } else if i == 13 {
                ETHERTYPE_IPV4_LO
            } else if i == 24 {
                (ips / 256) as u8
            } else if i == 25 {
                (ips % 256) as u8
            } else if 14 <= i < 34 {
                iph[i - 14]
            } else if i == 50 {
                (tcs / 256) as u8
            } else if i == 51 {
                (tcs % 256) as u8
            } else if 34 <= i < 54 {
                tcph[i - 34]
            } else if 54 <= i < end {
                payload[i - 54]
            } else if end <= i < MIN_FRAME_LEN {
                0u8
            } else {
                b[i]
            },
    )
}

/// Writes a 16-bit value big-endian at `at`.
fn put_be16(buf: &mut [u8], at: usize, v: u16)
    requires
        at + 2 <= old(buf)@.len(),
    ensures
        final(buf)@ == crate::bytes::splice(old(buf)@, at as int, be16_seq(v as nat)),
{
    let ghost b = buf@;
    buf[at] = (v / 256) as u8;
    buf[at + 1] = (v % 256) as u8;
    assert(buf@ =~= crate::bytes::splice(b, at as int, be16_seq(v as nat)));
}

/// Writes a 32-bit value big-endian at `at`.
fn put_be32(buf: &mut [u8], at: usize, v: u32)
    requires
        at + 4 <= old(buf)@.len(),
    ensures
        final(buf)@ == crate::bytes::splice(old(buf)@, at as int, be32_seq(v as nat)),
{
    let ghost b = buf@;
    buf[at] = (v / 0x1000000) as u8;
    buf[at + 1] = ((v / 0x10000) % 256) as u8;
    buf[at + 2] = ((v / 256) % 256) as u8;
    buf[at + 3] = (v % 256) as u8;
    assert(buf@ =~= crate::bytes::splice(b, at as int, be32_seq(v as nat)));
}

/// Builds one Ethernet+IPv4+TCP frame into `buf`, zero-padded to the
/// Ethernet minimum, and returns its length. `payload` follows the 20-byte
/// TCP header; it is empty for a pure control segment.
pub fn build_segment(
    buf: &mut [u8],
    my_mac: [u8; 6],
    my_ip: [u8; 4],
    peer_mac: [u8; 6],
    peer_ip: [u8; 4],
    src_port: u16,
    dst_port: u16,
    seq: u32,
    ack: u32,
    flags: u8,
    window: u16,
    payload: &[u8],
) -> (r: usize)
    requires
        payload@.len() <= MAX_BUILD_PAYLOAD,
        old(buf)@.len() >= padded_len(54 + payload@.len() as int),
    ensures
        r == padded_len(54 + payload@.len() as int),
        final(buf)@ == segment_frame(old(buf)@, my_mac@, my_ip@, peer_mac@, peer_ip@, src_port, dst_port, seq, ack, flags, window, payload@),
{
    let ghost b = buf@;
    let plen = payload.len();
    let total_len = IPV4_HEADER_LEN + HEADER_LEN + plen;

    write_bytes(buf, 0, peer_mac.as_slice());
    write_bytes(buf, 6, my_mac.as_slice());
    buf[12] = ETHERTYPE_IPV4_HI;
    buf[13] = ETHERTYPE_IPV4_LO;

    buf[14] = IPV4_VER_IHL_NO_OPTIONS;
    buf[15] = 0;
    put_be16(buf, 16, (total_len % 0x10000) as u16);
    fill_bytes(buf, 18, 22, 0);
    buf[22] = DEFAULT_TTL;
    buf[23] = IP_PROTO_TCP;
    fill_bytes(buf, 24, 26, 0);
    write_bytes(buf, 26, my_ip.as_slice());
    write_bytes(buf, 30, peer_ip.as_slice());

    put_be16(buf, 34, src_port);
    put_be16(buf, 36, dst_port);
    put_be32(buf, 38, seq);
    put_be32(buf, 42, ack);
    buf[46] = 0x50;
    buf[47] = flags;
    put_be16(buf, 48, window);
    fill_bytes(buf, 50, 52, 0);
    fill_bytes(buf, 52, 54, 0);
    write_bytes(buf, 54, payload);

    let ghost iph = ip_header_for(plen as nat, my_ip@, peer_ip@);
    let ghost tcph = tcp_header_for(src_port, dst_port, seq, ack, flags, window);
    assert(buf@.subrange(14, 34) =~= iph);
    assert(buf@.subrange(34, (54 + plen) as int) =~= tcph + payload@);

    let mut pseudo = [0u8; 12];
    pseudo[0] = my_ip[0];
    pseudo[1] = my_ip[1];
    pseudo[2] = my_ip[2];
    pseudo[3] = my_ip[3];
    pseudo[4] = peer_ip[0];
    pseudo[5] = peer_ip[1];
    pseudo[6] = peer_ip[2];
    pseudo[7] = peer_ip[3];
    pseudo[8] = 0;
    pseudo[9] = IP_PROTO_TCP;
    let seg_len = ((HEADER_LEN + plen) % 0x10000) as u16;
    pseudo[10] = (seg_len / 256) as u8;
    pseudo[11] = (seg_len % 256) as u8;
    assert(pseudo@ =~= pseudo_header(my_ip@, peer_ip@, plen as nat));
    proof {
        lemma_word_sum_bound(pseudo@);
        lemma_word_sum_bound(tcph + payload@);
        assert(0xFFFF * ((20 + plen + 1) / 2) + 0xFFFF * 6 <= u32::MAX) by (nonlinear_arith)
            requires plen <= 0x10000;
    }
    let sum = checksum16_accumulate(0, pseudo.as_slice());
    let sum = checksum16_accumulate(sum, &buf[34..54 + plen]);
    let tcp_sum = checksum16_finish(sum);
    put_be16(buf, 50, tcp_sum);

    proof {
        lemma_word_sum_bound(iph);
    }
    assert(buf@.subrange(14, 34) =~= iph);
    let ip_sum = checksum16_finish(checksum16_accumulate(0, &buf[14..34]));
    put_be16(buf, 24, ip_sum);

    let n = pad_to_min_frame(buf, ETH_HEADER_LEN + total_len);
    assert(buf@ =~= segment_frame(b, my_mac@, my_ip@, peer_mac@, peer_ip@, src_port, dst_port, seq, ack, flags, window, payload@));
    n
}

// ---------------------------------------------------------------------
// Parsing.
// ---------------------------------------------------------------------

/// The IPv4 total-length field of a frame.
pub open spec fn total_len_of(b: Seq<u8>) -> int {
    be16_at(b, 16) as int
}

/// The TCP header length a frame's data-offset field claims.
pub open spec fn data_offset_of(b: Seq<u8>) -> int {
    (b[46] / 16) as int * 4
}

/// The checks `parse_segment` makes before it looks at the TCP header:
/// an IPv4 frame with a plain header, protocol TCP, from `peer_ip`, with a
/// total length that fits in `len` and leaves room for a TCP header.
pub open spec fn segment_header_ok(b: Seq<u8>, len: int, peer_ip: Seq<u8>) -> bool {
    &&& len >= ETH_HEADER_LEN + IPV4_HEADER_LEN
    &&& is_ipv4_ethertype(b)
    &&& b[14] == IPV4_VER_IHL_NO_OPTIONS
    &&& b[23] == IP_PROTO_TCP
    &&& b.subrange(26, 30) == peer_ip
    &&& total_len_of(b) >= IPV4_HEADER_LEN
    &&& ETH_HEADER_LEN + total_len_of(b) <= len
    &&& total_len_of(b) - IPV4_HEADER_LEN >= HEADER_LEN
}

/// What `parse_segment` makes of `b[..len]`.
pub open spec fn parse_segment_spec(b: Seq<u8>, len: int, peer_ip: Seq<u8>) -> Option<SegmentModel> {
    if segment_header_ok(b, len, peer_ip) && HEADER_LEN <= data_offset_of(b) <= total_len_of(b) - IPV4_HEADER_LEN {
        Some(
            SegmentModel {
                src_port: be16_at(b, 34) as u16,
                dst_port: be16_at(b, 36) as u16,
                seq: be32_at(b, 38) as u32,
                ack: be32_at(b, 42) as u32,
                flags: b[47],
                window: be16_at(b, 48) as u16,
                payload: b.subrange(TCP_OFFSET + data_offset_of(b), ETH_HEADER_LEN + total_len_of(b)),
            },
        )
    } else {
        None
    }
}

/// Parses `buf[..len]` as a TCP segment from `expect_peer_ip`, or `None` if
/// it is not one (wrong type, protocol or source, or too short for what
/// its own length and offset fields claim).
pub fn parse_segment<'a>(buf: &'a [u8], len: usize, expect_peer_ip: [u8; 4]) -> (r: Option<Segment<'a>>)
    requires
        len >= ETH_HEADER_LEN + IPV4_HEADER_LEN ==> buf@.len() >= ETH_HEADER_LEN + IPV4_HEADER_LEN,
        segment_header_ok(buf@, len as int, expect_peer_ip@) ==> buf@.len() >= ETH_HEADER_LEN + total_len_of(buf@),
    ensures
        match r {
            Some(seg) => parse_segment_spec(buf@, len as int, expect_peer_ip@) == Some(seg@),
            None => parse_segment_spec(buf@, len as int, expect_peer_ip@) is None,
        },
{
    if len < ETH_HEADER_LEN + IPV4_HEADER_LEN {
        return None;
    }
    if buf[12] != ETHERTYPE_IPV4_HI || buf[13] != ETHERTYPE_IPV4_LO {
        return None;
    }
    if buf[14] != IPV4_VER_IHL_NO_OPTIONS {
        return None;
    }
    if buf[23] != IP_PROTO_TCP {
        return None;
    }
    if !bytes_eq_at(buf, 26, expect_peer_ip.as_slice()) {
        return None;
    }
    let total_len = (buf[16] as usize) * 256 + (buf[17] as usize);
    if total_len < IPV4_HEADER_LEN || total_len > len - ETH_HEADER_LEN {
        return None;
    }
    let tcp = ETH_HEADER_LEN + IPV4_HEADER_LEN;
    let tcp_len = total_len - IPV4_HEADER_LEN;
    if tcp_len < HEADER_LEN {
        return None;
    }
    let data_offset = ((buf[tcp + 12] / 16) as usize) * 4;
    if data_offset < HEADER_LEN || data_offset > tcp_len {
        return None;
    }
    let src_port = (buf[tcp] as u16) * 256 + (buf[tcp + 1] as u16);
    let dst_port = (buf[tcp + 2] as u16) * 256 + (buf[tcp + 3] as u16);
    let seq = (buf[tcp + 4] as u32) * 0x1000000 + (buf[tcp + 5] as u32) * 0x10000 + (buf[tcp + 6] as u32) * 0x100
        + (buf[tcp + 7] as u32);
    let ack = (buf[tcp + 8] as u32) * 0x1000000 + (buf[tcp + 9] as u32) * 0x10000 + (buf[tcp + 10] as u32) * 0x100
        + (buf[tcp + 11] as u32);
    let window = (buf[tcp + 14] as u16) * 256 + (buf[tcp + 15] as u16);
    Some(
        Segment {
            src_port,
            dst_port,
            seq,
            ack,
            flags: buf[tcp + 13],
            window,
            payload: &buf[tcp + data_offset..ETH_HEADER_LEN + total_len],
        },
    )
}

/// Round trip: a frame built by `build_segment` parses back, at its padded
/// length and with the builder's address as the expected peer, to exactly
/// the ports, sequence and acknowledgement numbers, flags, window and
/// payload it was built from.
pub proof fn lemma_build_parse_round_trip(
    b: Seq<u8>,
    my_mac: Seq<u8>,
    my_ip: Seq<u8>,
    peer_mac: Seq<u8>,
    peer_ip: Seq<u8>,
    src_port: u16,
    dst_port: u16,
    seq: u32,
    ack: u32,
    flags: u8,
    window: u16,
    payload: Seq<u8>,
)
    requires
        my_mac.len() == 6,
        peer_mac.len() == 6,
        my_ip.len() == 4,
        peer_ip.len() == 4,
        payload.len() <= MAX_BUILD_PAYLOAD,
        b.len() >= padded_len(54 + payload.len() as int),
    ensures
        parse_segment_spec(
            segment_frame(b, my_mac, my_ip, peer_mac, peer_ip, src_port, dst_port, seq, ack, flags, window, payload),
            padded_len(54 + payload.len() as int),
            my_ip,
        ) == Some(SegmentModel { src_port, dst_port, seq, ack, flags, window, payload }),
{
    let f = segment_frame(b, my_mac, my_ip, peer_mac, peer_ip, src_port, dst_port, seq, ack, flags, window, payload);
    let iph = ip_header_for(payload.len(), my_ip, peer_ip);
    let tcph = tcp_header_for(src_port, dst_port, seq, ack, flags, window);
    let tl: nat = 40 + payload.len();
    lemma_be16_seq(tl);
    lemma_be16_seq(src_port as nat);
    lemma_be16_seq(dst_port as nat);
    lemma_be16_seq(window as nat);
    lemma_be32_seq(seq as nat);
    lemma_be32_seq(ack as nat);
    assert(tl % 0x10000 == tl);
    assert(f[16] == iph[2] && f[17] == iph[3]);
    assert(total_len_of(f) == tl);
    assert(f.subrange(26, 30) =~= my_ip);
    assert(f[46] == 0x50u8);
    assert(data_offset_of(f) == 20);
    assert(f[34] == tcph[0] && f[35] == tcph[1]);
    assert(be16_at(f, 34) == src_port);
    assert(f[36] == tcph[2] && f[37] == tcph[3]);
    assert(be16_at(f, 36) == dst_port);
    assert(f[38] == tcph[4] && f[39] == tcph[5] && f[40] == tcph[6] && f[41] == tcph[7]);
    assert(be32_at(f, 38) == seq);
    assert(f[42] == tcph[8] && f[43] == tcph[9] && f[44] == tcph[10] && f[45] == tcph[11]);
    assert(be32_at(f, 42) == ack);
    assert(f[48] == tcph[14] && f[49] == tcph[15]);
    assert(be16_at(f, 48) == window);
    assert(f.subrange(54, 54 + payload.len() as int) =~= payload);
}

/// The big-endian bytes of a 16-bit quantity decode back to it.
pub proof fn lemma_be16_seq(v: nat)
    requires
        v < 0x10000,
    ensures
        be16_seq(v).len() == 2,
        (be16_seq(v)[0] as nat) * 256 + (be16_seq(v)[1] as nat) == v,
{
}

/// The big-endian bytes of a 32-bit quantity decode back to it.
pub proof fn lemma_be32_seq(v: nat)
    requires
        v < 0x100000000,
    ensures
        be32_seq(v).len() == 4,
        (be32_seq(v)[0] as nat) * 0x1000000 + (be32_seq(v)[1] as nat) * 0x10000 + (be32_seq(v)[2] as nat) * 0x100
            + (be32_seq(v)[3] as nat) == v,
{
    assert((v / 0x1000000) * 0x1000000 + ((v / 0x10000) % 256) * 0x10000 + ((v / 256) % 256) * 0x100 + v % 256 == v)
        by (nonlinear_arith)
        requires v < 0x100000000;
}

/// Segments check out: in every frame `build_segment` writes, the IPv4
/// header verifies against its checksum, and the TCP segment as sent
/// verifies against its checksum over the pseudo-header and the segment.
pub proof fn lemma_segment_checksums(
    b: Seq<u8>,
    my_mac: Seq<u8>,
    my_ip: Seq<u8>,
    peer_mac: Seq<u8>,
    peer_ip: Seq<u8>,
    src_port: u16,
    dst_port: u16,
    seq: u32,
    ack: u32,
    flags: u8,
    window: u16,
    payload: Seq<u8>,
)
    requires
        my_mac.len() == 6,
        peer_mac.len() == 6,
        my_ip.len() == 4,
        peer_ip.len() == 4,
        b.len() >= 54 + payload.len(),
    ensures
        ({
            let f = segment_frame(b, my_mac, my_ip, peer_mac, peer_ip, src_port, dst_port, seq, ack, flags, window, payload);
            &&& checksum_spec(f.subrange(14, 34)) == 0
            &&& finish_spec(word_sum(pseudo_header(my_ip, peer_ip, payload.len())) + word_sum(f.subrange(34, 54 + payload.len() as int)))
                == 0
        }),
{
    let f = segment_frame(b, my_mac, my_ip, peer_mac, peer_ip, src_port, dst_port, seq, ack, flags, window, payload);
    let iph = ip_header_for(payload.len(), my_ip, peer_ip);
    let ips = checksum_spec(iph);
    assert(f.subrange(14, 34) =~= iph.update(10, (ips / 256) as u8).update(11, (ips % 256) as u8));
    lemma_checksum_fills_to_zero(0, iph, 10);
    let tcph = tcp_header_for(src_port, dst_port, seq, ack, flags, window);
    let ph = pseudo_header(my_ip, peer_ip, payload.len());
    let seg = tcph + payload;
    let tcs = tcp_checksum(ph, tcph, payload);
    assert(f.subrange(34, 54 + payload.len() as int) =~= seg.update(16, (tcs / 256) as u8).update(17, (tcs % 256) as u8));
    lemma_checksum_fills_to_zero(word_sum(ph), seg, 16);
}

} // verus!

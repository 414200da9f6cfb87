//! Packet-level logic: parsing and in-place reply construction for ARP and
//! ICMP echo. Deliberately narrow: answers an ARP request for this host's
//! own static IP, and an ICMP echo request (ping) addressed to it, nothing
//! else. An IPv4 header with options (any length but the plain 20 bytes) is
//! ignored rather than parsed, and incoming checksums are not verified.
use vstd::prelude::*;
use crate::bytes::{be16_at, splice, filled, write_bytes, fill_bytes, bytes_eq_at};
use crate::net::checksum::{checksum16, checksum_spec, word_sum, lemma_word_sum_bound, lemma_checksum_fills_to_zero};

verus! {

pub const ETH_HEADER_LEN: usize = 14;
pub const ARP_LEN: usize = 28;
pub const IPV4_HEADER_LEN: usize = 20;
pub const ICMP_HEADER_LEN: usize = 8;
/// Real Ethernet's minimum frame size before the 4-byte FCS; any reply
/// built shorter than this is zero-padded up to it.
pub const MIN_FRAME_LEN: usize = 60;

/// First and second byte of the Ethernet type field of an ARP frame.
pub const ETHERTYPE_ARP_HI: u8 = 0x08;
pub const ETHERTYPE_ARP_LO: u8 = 0x06;
/// First and second byte of the Ethernet type field of an IPv4 frame.
pub const ETHERTYPE_IPV4_HI: u8 = 0x08;
pub const ETHERTYPE_IPV4_LO: u8 = 0x00;
/// IPv4 "version 4, header length 5 words, no options".
pub const IPV4_VER_IHL_NO_OPTIONS: u8 = 0x45;
pub const IPV4_PROTO_ICMP: u8 = 1;
/// TTL of every packet this host originates (it never routes).
pub const DEFAULT_TTL: u8 = 64;
pub const ICMP_TYPE_ECHO_REQUEST: u8 = 8;
pub const ICMP_TYPE_ECHO_REPLY: u8 = 0;

// ---------------------------------------------------------------------
// Specification of the frames.
// ---------------------------------------------------------------------

/// The Ethernet type field says ARP.
pub open spec fn is_arp_ethertype(b: Seq<u8>) -> bool {
    b[12] == ETHERTYPE_ARP_HI && b[13] == ETHERTYPE_ARP_LO
}

/// The Ethernet type field says IPv4.
pub open spec fn is_ipv4_ethertype(b: Seq<u8>) -> bool {
    b[12] == ETHERTYPE_IPV4_HI && b[13] == ETHERTYPE_IPV4_LO
}

/// The ARP body's hardware type is Ethernet and its protocol type IPv4.
pub open spec fn arp_types_ok(b: Seq<u8>) -> bool {
    b[14] == 0 && b[15] == 1 && b[16] == 0x08 && b[17] == 0
}

/// `b[..len]` is an Ethernet/IPv4 ARP request asking for `my_ip`.
pub open spec fn is_arp_request_for(b: Seq<u8>, len: int, my_ip: Seq<u8>) -> bool {
    &&& len >= ETH_HEADER_LEN + ARP_LEN
    &&& arp_types_ok(b)
    &&& b[18] == 6 && b[19] == 4
    &&& b[20] == 0 && b[21] == 1
    &&& b.subrange(38, 42) == my_ip
}

/// The in-place ARP reply to the request in `b`: every sender/target field
/// swapped, our own address filled in as the answer, padded to the minimum
/// frame length.
pub open spec fn arp_reply_frame(b: Seq<u8>, my_mac: Seq<u8>, my_ip: Seq<u8>) -> Seq<u8> {
    Seq::new(
        b.len(),
        |i: int|
            if i < 6 {
                b[22 + i]
            } else if i < 12 {
                my_mac[i - 6]
            } else if i == 20 {
                0u8
            } else if i == 21 {
                2u8
            } else if 22 <= i < 28 {
                my_mac[i - 22]
            } else if 28 <= i < 32 {
                my_ip[i - 28]
            } else if 32 <= i < 42 {
                b[i - 10]
            } else if 42 <= i < MIN_FRAME_LEN {
                0u8
            } else {
                b[i]
            },
    )
}

/// The IPv4 total-length field.
pub open spec fn ip_total_len(b: Seq<u8>) -> int {
    be16_at(b, 16) as int
}

/// `b[..len]` is an ICMP echo request (plain 20-byte IPv4 header, code 0)
/// addressed to `my_ip`, whose length fields are consistent with `len`.
pub open spec fn is_echo_request_for(b: Seq<u8>, len: int, my_ip: Seq<u8>) -> bool {
    &&& len >= ETH_HEADER_LEN + IPV4_HEADER_LEN
    &&& b[14] == IPV4_VER_IHL_NO_OPTIONS
    &&& b[23] == IPV4_PROTO_ICMP
    &&& b.subrange(30, 34) == my_ip
    &&& ip_total_len(b) >= IPV4_HEADER_LEN
    &&& ETH_HEADER_LEN + ip_total_len(b) <= len
    &&& ip_total_len(b) - IPV4_HEADER_LEN >= ICMP_HEADER_LEN
    &&& b[34] == ICMP_TYPE_ECHO_REQUEST && b[35] == 0
}

/// The reply's ICMP message with its checksum field still zero: type echo
/// reply, identifier, sequence and payload echoed verbatim.
pub open spec fn echo_reply_message(b: Seq<u8>) -> Seq<u8> {
    Seq::new(
        (ip_total_len(b) - IPV4_HEADER_LEN) as nat,
        |j: int| if j == 0 || j == 2 || j == 3 { 0u8 } else { b[34 + j] },
    )
}

/// The reply's IPv4 header with its checksum field still zero: addresses
/// swapped, TTL refreshed, everything else as received.
pub open spec fn ip_reply_header(b: Seq<u8>) -> Seq<u8> {
    Seq::new(
        20,
        |j: int|
            if j == 8 {
                DEFAULT_TTL
            } else if j == 10 || j == 11 {
                0u8
            } else if 12 <= j < 16 {
                b[18 + j]
            } else if 16 <= j < 20 {
                b[10 + j]
            } else {
                b[14 + j]
            },
    )
}

/// The in-place ICMP echo reply to the request in `b`.
pub open spec fn echo_reply_frame(b: Seq<u8>, my_mac: Seq<u8>) -> Seq<u8> {
    let ics = checksum_spec(echo_reply_message(b));
    let ips = checksum_spec(ip_reply_header(b));
    let end = ETH_HEADER_LEN + ip_total_len(b);
    Seq::new(
        b.len(),
        |i: int|
            if i < 6 {
                b[i + 6]
            } else if i < 12 {
                my_mac[i - 6]
            } else if i == 24 {
                (ips / 256) as u8
            } else if i == 25 {
                (ips % 256) as u8
            } else if 14 <= i < 34 {
                ip_reply_header(b)[i - 14]
            } else if i == 36 {
                (ics / 256) as u8
            } else if i == 37 {
                (ics % 256) as u8
            } else if 34 <= i < end {
                echo_reply_message(b)[i - 34]
            } else if end <= i < MIN_FRAME_LEN {
                0u8
            } else {
                b[i]
            },
    )
}

/// A reply length padded up to the Ethernet minimum.
pub open spec fn padded_len(n: int) -> int {
    if n < MIN_FRAME_LEN { MIN_FRAME_LEN as int } else { n }
}

/// What `handle_frame` makes of `b[..len]`: the rewritten buffer and the
/// reply's length, or `None` for a frame it does not answer.
pub open spec fn frame_reply(b: Seq<u8>, len: int, my_mac: Seq<u8>, my_ip: Seq<u8>) -> Option<(Seq<u8>, int)> {
    if len < ETH_HEADER_LEN || len > b.len() {
        None
    } else if is_arp_ethertype(b) {
        if is_arp_request_for(b, len, my_ip) {
            Some((arp_reply_frame(b, my_mac, my_ip), MIN_FRAME_LEN as int))
        } else {
            None
        }
    } else if is_ipv4_ethertype(b) {
        if is_echo_request_for(b, len, my_ip) {
            Some((echo_reply_frame(b, my_mac), padded_len(ETH_HEADER_LEN + ip_total_len(b))))
        } else {
            None
        }
    } else {
        None
    }
}

// ---------------------------------------------------------------------
// Implementation.
// ---------------------------------------------------------------------

/// Inspects `buf[..len]` and, if it is an ARP request or ICMP echo request
/// addressed to `my_ip`, rewrites it in place into the corresponding reply
/// and returns the reply's length. Only bytes below `len` are read as the
/// request's own; a reply shorter than the Ethernet minimum is zero-padded
/// into the bytes just past it.
pub fn handle_frame(buf: &mut [u8], len: usize, my_mac: [u8; 6], my_ip: [u8; 4]) -> (r: Option<usize>)
    requires
        frame_reply(old(buf)@, len as int, my_mac@, my_ip@) is Some ==> old(buf)@.len() >= MIN_FRAME_LEN,
    ensures
        match frame_reply(old(buf)@, len as int, my_mac@, my_ip@) {
            Some((frame, n)) => r == Some(n as usize) && final(buf)@ == frame,
            None => r is None && final(buf)@ == old(buf)@,
        },
{
    if len < ETH_HEADER_LEN || len > buf.len() {
        return None;
    }
    if buf[12] == ETHERTYPE_ARP_HI && buf[13] == ETHERTYPE_ARP_LO {
        handle_arp(buf, len, my_mac, my_ip)
    } else if buf[12] == ETHERTYPE_IPV4_HI && buf[13] == ETHERTYPE_IPV4_LO {
        handle_echo_request(buf, len, my_mac, my_ip)
    } else {
        None
    }
}

/// Zero-pads `buf[reply_len..]` up to `MIN_FRAME_LEN` if `reply_len` is
/// short of it, returning whichever length is actually sent.
pub fn pad_to_min_frame(buf: &mut [u8], reply_len: usize) -> (r: usize)
    requires
        reply_len < MIN_FRAME_LEN ==> old(buf)@.len() >= MIN_FRAME_LEN,
    ensures
        r == padded_len(reply_len as int),
        reply_len < MIN_FRAME_LEN ==> final(buf)@ == filled(old(buf)@, reply_len as int, MIN_FRAME_LEN as int, 0),
        reply_len >= MIN_FRAME_LEN ==> final(buf)@ == old(buf)@,
{
    if reply_len < MIN_FRAME_LEN {
        fill_bytes(buf, reply_len, MIN_FRAME_LEN, 0);
        MIN_FRAME_LEN
    } else {
        reply_len
    }
}

/// The ARP half of `handle_frame` (the Ethernet type is already known to
/// be ARP).
fn handle_arp(buf: &mut [u8], len: usize, my_mac: [u8; 6], my_ip: [u8; 4]) -> (r: Option<usize>)
    requires
        ETH_HEADER_LEN <= len <= old(buf)@.len(),
        is_arp_ethertype(old(buf)@),
        is_arp_request_for(old(buf)@, len as int, my_ip@) ==> old(buf)@.len() >= MIN_FRAME_LEN,
    ensures
        if is_arp_request_for(old(buf)@, len as int, my_ip@) {
            r == Some(MIN_FRAME_LEN) && final(buf)@ == arp_reply_frame(old(buf)@, my_mac@, my_ip@)
        } else {
            r is None && final(buf)@ == old(buf)@
        },
{
    let ghost b = buf@;
    if len < ETH_HEADER_LEN + ARP_LEN {
        return None;
    }
    if buf[14] != 0 || buf[15] != 1 || buf[16] != 0x08 || buf[17] != 0 {
        return None;
    }
    if buf[18] != 6 || buf[19] != 4 {
        return None;
    }
    if buf[20] != 0 || buf[21] != 1 {
        return None;
    }
    if !bytes_eq_at(buf, 38, my_ip.as_slice()) {
        return None;
    }
    let mut sender_mac = [0u8; 6];
    let mut k: usize = 0;
    while k < 6
        invariant
            k <= 6,
            buf@ == b,
            b.len() >= 42,
            forall|j: int| 0 <= j < k ==> sender_mac@[j] == b[22 + j],
        decreases 6 - k,
    {
        sender_mac[k] = buf[22 + k];
        k = k + 1;
    }
    let mut sender_ip = [0u8; 4];
    let mut k: usize = 0;
    while k < 4
        invariant
            k <= 4,
            buf@ == b,
            b.len() >= 42,
            forall|j: int| 0 <= j < k ==> sender_ip@[j] == b[28 + j],
        decreases 4 - k,
    {
        sender_ip[k] = buf[28 + k];
        k = k + 1;
    }
    write_bytes(buf, 0, sender_mac.as_slice());
    write_bytes(buf, 6, my_mac.as_slice());
    buf[20] = 0;
    buf[21] = 2;
    write_bytes(buf, 22, my_mac.as_slice());
    write_bytes(buf, 28, my_ip.as_slice());
    write_bytes(buf, 32, sender_mac.as_slice());
    write_bytes(buf, 38, sender_ip.as_slice());
    let n = pad_to_min_frame(buf, ETH_HEADER_LEN + ARP_LEN);
    assert(buf@ =~= arp_reply_frame(b, my_mac@, my_ip@));
    Some(n)
}

/// The ICMP half of `handle_frame` (the Ethernet type is already known to
/// be IPv4). Identifier, sequence and payload are echoed untouched; only
/// the type byte, the addresses, the TTL and the two checksums change.
fn handle_echo_request(buf: &mut [u8], len: usize, my_mac: [u8; 6], my_ip: [u8; 4]) -> (r: Option<usize>)
    requires
        ETH_HEADER_LEN <= len <= old(buf)@.len(),
        is_echo_request_for(old(buf)@, len as int, my_ip@) ==> old(buf)@.len() >= MIN_FRAME_LEN,
    ensures
        if is_echo_request_for(old(buf)@, len as int, my_ip@) {
            r == Some(padded_len(ETH_HEADER_LEN + ip_total_len(old(buf)@)) as usize)
                && final(buf)@ == echo_reply_frame(old(buf)@, my_mac@)
        } else {
            r is None && final(buf)@ == old(buf)@
        },
{
    let ghost b = buf@;
    if len < ETH_HEADER_LEN + IPV4_HEADER_LEN {
        return None;
    }
    if buf[14] != IPV4_VER_IHL_NO_OPTIONS {
        return None;
    }
    if buf[23] != IPV4_PROTO_ICMP {
        return None;
    }
    if !bytes_eq_at(buf, 30, my_ip.as_slice()) {
        return None;
    }
    let total_len = (buf[16] as usize) * 256 + (buf[17] as usize);
    if total_len < IPV4_HEADER_LEN || total_len > len - ETH_HEADER_LEN {
        return None;
    }
    let msg = ETH_HEADER_LEN + IPV4_HEADER_LEN;
    let msg_len = total_len - IPV4_HEADER_LEN;
    if msg_len < ICMP_HEADER_LEN {
        return None;
    }
    if buf[msg] != ICMP_TYPE_ECHO_REQUEST || buf[msg + 1] != 0 {
        return None;
    }
    assert(is_echo_request_for(b, len as int, my_ip@));

    // ICMP: echo reply type, checksum recomputed over the rest.
    buf[msg] = ICMP_TYPE_ECHO_REPLY;
    buf[msg + 2] = 0;
    buf[msg + 3] = 0;
    let ghost b1 = buf@;
    assert(b1.subrange(msg as int, (msg + msg_len) as int) =~= echo_reply_message(b));
    proof {
        lemma_word_sum_bound(echo_reply_message(b));
        assert(0xFFFF * ((msg_len + 1) / 2) <= u32::MAX) by (nonlinear_arith)
            requires msg_len <= 0x10000;
    }
    let msg_sum = checksum16(&buf[msg..msg + msg_len]);
    buf[msg + 2] = (msg_sum / 256) as u8;
    buf[msg + 3] = (msg_sum % 256) as u8;

    // IPv4: swap the addresses, refresh the TTL, recompute the checksum.
    let mut src_ip = [0u8; 4];
    let mut k: usize = 0;
    while k < 4
        invariant
            k <= 4,
            buf@.len() == b.len(),
            b.len() >= 34,
            forall|j: int| 26 <= j < 30 ==> buf@[j] == b[j],
            forall|j: int| 0 <= j < k ==> src_ip@[j] == b[26 + j],
        decreases 4 - k,
    {
        src_ip[k] = buf[26 + k];
        k = k + 1;
    }
    let ghost b2 = buf@;
    let mut k: usize = 0;
    while k < 4
        invariant
            k <= 4,
            buf@.len() == b.len(),
            b2.len() == b.len(),
            b.len() >= 34,
            forall|j: int| 0 <= j < b.len() ==> #[trigger] buf@[j] == (if 26 <= j < 26 + k { b2[j + 4] } else { b2[j] }),
        decreases 4 - k,
    {
        buf[26 + k] = buf[30 + k];
        k = k + 1;
    }
    write_bytes(buf, 30, src_ip.as_slice());
    buf[22] = DEFAULT_TTL;
    buf[24] = 0;
    buf[25] = 0;
    let ghost b3 = buf@;
    assert(b3.subrange(14, 34) =~= ip_reply_header(b));
    proof {
        lemma_word_sum_bound(ip_reply_header(b));
    }
    let ip_sum = checksum16(&buf[14..34]);
    buf[24] = (ip_sum / 256) as u8;
    buf[25] = (ip_sum % 256) as u8;

    // Ethernet: back to the sender, from us.
    let mut sender_mac = [0u8; 6];
    let mut k: usize = 0;
    while k < 6
        invariant
            k <= 6,
            buf@.len() == b.len(),
            b.len() >= 34,
            forall|j: int| 6 <= j < 12 ==> buf@[j] == b[j],
            forall|j: int| 0 <= j < k ==> sender_mac@[j] == b[6 + j],
        decreases 6 - k,
    {
        sender_mac[k] = buf[6 + k];
        k = k + 1;
    }
    write_bytes(buf, 0, sender_mac.as_slice());
    write_bytes(buf, 6, my_mac.as_slice());
    let n = pad_to_min_frame(buf, ETH_HEADER_LEN + total_len);
    assert(buf@ =~= echo_reply_frame(b, my_mac@));
    Some(n)
}

/// The ARP request `build_arp_request` writes over `b`: broadcast, asking
/// who has `target_ip` on behalf of `my_mac`/`my_ip`, padded to the minimum
/// frame length.
pub open spec fn arp_request_frame(b: Seq<u8>, my_mac: Seq<u8>, my_ip: Seq<u8>, target_ip: Seq<u8>) -> Seq<u8> {
    Seq::new(
        b.len(),
        |i: int|
            if i < 6 {
                0xffu8
            } else if i < 12 {
                my_mac[i - 6]
            } else if i == 12 {
                ETHERTYPE_ARP_HI
            } else if i == 13 {
                ETHERTYPE_ARP_LO
            } else if i == 14 || i == 17 || i == 20 {
                0u8
            } else if i == 15 || i == 21 {
                1u8
            } else if i == 16 {
                0x08u8
            } else if i == 18 {
                6u8
            } else if i == 19 {
                4u8
            } else if 22 <= i < 28 {
                my_mac[i - 22]
            } else if 28 <= i < 32 {
                my_ip[i - 28]
            } else if 32 <= i < 38 {
                0u8
            } else if 38 <= i < 42 {
                target_ip[i - 38]
            } else if 42 <= i < MIN_FRAME_LEN {
                0u8
            } else {
                b[i]
            },
    )
}

/// Builds into `buf` an ARP request asking who has `target_ip`, zero-padded
/// to `MIN_FRAME_LEN`, and returns its length.
pub fn build_arp_request(buf: &mut [u8], my_mac: [u8; 6], my_ip: [u8; 4], target_ip: [u8; 4]) -> (r: usize)
    requires
        old(buf)@.len() >= MIN_FRAME_LEN,
    ensures
        r == MIN_FRAME_LEN,
        final(buf)@ == arp_request_frame(old(buf)@, my_mac@, my_ip@, target_ip@),
{
    let ghost b = buf@;
    fill_bytes(buf, 0, 6, 0xff);
    write_bytes(buf, 6, my_mac.as_slice());
    buf[12] = ETHERTYPE_ARP_HI;
    buf[13] = ETHERTYPE_ARP_LO;
    buf[14] = 0;
    buf[15] = 1;
    buf[16] = 0x08;
    buf[17] = 0;
    buf[18] = 6;
    buf[19] = 4;
    buf[20] = 0;
    buf[21] = 1;
    write_bytes(buf, 22, my_mac.as_slice());
    write_bytes(buf, 28, my_ip.as_slice());
    fill_bytes(buf, 32, 38, 0);
    write_bytes(buf, 38, target_ip.as_slice());
    let n = pad_to_min_frame(buf, ETH_HEADER_LEN + ARP_LEN);
    assert(buf@ =~= arp_request_frame(b, my_mac@, my_ip@, target_ip@));
    n
}

/// `b[..len]` is an Ethernet/IPv4 ARP reply whose sender protocol address
/// is `target_ip`.
pub open spec fn is_arp_reply_from(b: Seq<u8>, len: int, target_ip: Seq<u8>) -> bool {
    &&& len >= ETH_HEADER_LEN + ARP_LEN
    &&& is_arp_ethertype(b)
    &&& arp_types_ok(b)
    &&& b[20] == 0 && b[21] == 2
    &&& b.subrange(28, 32) == target_ip
}

/// If `buf[..len]` is an ARP reply naming `target_ip` as its sender
/// address, returns that sender's hardware address. Every other frame,
/// ARP requests included, gives `None`.
pub fn parse_arp_reply(buf: &[u8], len: usize, target_ip: [u8; 4]) -> (r: Option<[u8; 6]>)
    requires
        len >= ETH_HEADER_LEN + ARP_LEN ==> buf@.len() >= ETH_HEADER_LEN + ARP_LEN,
    ensures
        match r {
            Some(mac) => is_arp_reply_from(buf@, len as int, target_ip@) && mac@ == buf@.subrange(22, 28),
            None => !is_arp_reply_from(buf@, len as int, target_ip@),
        },
{
    if len < ETH_HEADER_LEN + ARP_LEN {
        return None;
    }
    if buf[12] != ETHERTYPE_ARP_HI || buf[13] != ETHERTYPE_ARP_LO {
        return None;
    }
    if buf[14] != 0 || buf[15] != 1 || buf[16] != 0x08 || buf[17] != 0 {
        return None;
    }
    if buf[20] != 0 || buf[21] != 2 {
        return None;
    }
    if !bytes_eq_at(buf, 28, target_ip.as_slice()) {
        return None;
    }
    let mut mac = [0u8; 6];
    let mut k: usize = 0;
    while k < 6
        invariant
            k <= 6,
            buf@.len() >= 42,
            forall|j: int| 0 <= j < k ==> mac@[j] == buf@[22 + j],
        decreases 6 - k,
    {
        mac[k] = buf[22 + k];
        k = k + 1;
    }
    assert(mac@ =~= buf@.subrange(22, 28));
    Some(mac)
}

/// ARP round trip: a request built by `build_arp_request` for `target_ip`,
/// answered by `handle_frame` on the host that owns `target_ip` (with
/// hardware address `peer_mac`), comes back addressed to the requester and
/// parses (`parse_arp_reply` for `target_ip`) to exactly `peer_mac`.
pub proof fn lemma_arp_round_trip(b: Seq<u8>, my_mac: Seq<u8>, my_ip: Seq<u8>, target_ip: Seq<u8>, peer_mac: Seq<u8>)
    requires
        b.len() >= MIN_FRAME_LEN,
        my_mac.len() == 6,
        peer_mac.len() == 6,
        my_ip.len() == 4,
        target_ip.len() == 4,
    ensures
        ({
            let req = arp_request_frame(b, my_mac, my_ip, target_ip);
            let reply = arp_reply_frame(req, peer_mac, target_ip);
            &&& frame_reply(req, MIN_FRAME_LEN as int, peer_mac, target_ip) == Some((reply, MIN_FRAME_LEN as int))
            &&& is_arp_reply_from(reply, MIN_FRAME_LEN as int, target_ip)
            &&& reply.subrange(22, 28) == peer_mac
            &&& reply.subrange(0, 6) == my_mac
            &&& reply.subrange(32, 38) == my_mac
            &&& reply.subrange(38, 42) == my_ip
        }),
{
    let req = arp_request_frame(b, my_mac, my_ip, target_ip);
    let reply = arp_reply_frame(req, peer_mac, target_ip);
    assert(req.subrange(38, 42) =~= target_ip);
    assert(reply.subrange(28, 32) =~= target_ip);
    assert(reply.subrange(22, 28) =~= peer_mac);
    assert(reply.subrange(0, 6) =~= my_mac);
    assert(reply.subrange(32, 38) =~= my_mac);
    assert(reply.subrange(38, 42) =~= my_ip);
}

/// Echo replies check out: in every echo reply `handle_frame` builds, the
/// IPv4 header and the ICMP message each verify against their checksum
/// (the checksum computed over the range as sent comes to zero).
pub proof fn lemma_echo_reply_checksums(b: Seq<u8>, len: int, my_mac: Seq<u8>, my_ip: Seq<u8>)
    requires
        my_mac.len() == 6,
        is_ipv4_ethertype(b),
        frame_reply(b, len, my_mac, my_ip) is Some,
    ensures
        ({
            let reply = frame_reply(b, len, my_mac, my_ip).unwrap().0;
            &&& checksum_spec(reply.subrange(14, 34)) == 0
            &&& checksum_spec(reply.subrange(34, ETH_HEADER_LEN + ip_total_len(b))) == 0
        }),
{
    let reply = echo_reply_frame(b, my_mac);
    let h = ip_reply_header(b);
    let ips = checksum_spec(h);
    assert(reply.subrange(14, 34) =~= h.update(10, (ips / 256) as u8).update(11, (ips % 256) as u8));
    lemma_checksum_fills_to_zero(0, h, 10);
    let m = echo_reply_message(b);
    let ics = checksum_spec(m);
    assert(reply.subrange(34, ETH_HEADER_LEN + ip_total_len(b)) =~= m.update(2, (ics / 256) as u8).update(
        3,
        (ics % 256) as u8,
    ));
    lemma_checksum_fills_to_zero(0, m, 2);
}

} // verus!

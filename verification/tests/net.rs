use zephyrlite::ipc::RecvResult;
use zephyrlite::net::checksum::{checksum16, checksum16_accumulate, checksum16_finish};
use zephyrlite::net::conn::{
    client_buffer_mapped, fail_pending_op, handle_client_message, handle_nic_frame, next_idle_yields, tick,
    ConnState, NetState, PendingOp, Stash, Tick, INITIAL_SEQ, LOCAL_PORT, MAX_ATTEMPTS, NIC_MAX_FRAME, STATIC_IP,
    TCP_MAX_TRANSFER, TCP_OP_CLOSE, TCP_OP_CONNECT, TCP_OP_RECV, TCP_OP_SEND, TCP_OP_SET_BUFFER, TCP_OP_SET_REPLY,
};
use zephyrlite::net::proto::{build_arp_request, handle_frame, pad_to_min_frame, parse_arp_reply, MIN_FRAME_LEN};
use zephyrlite::net::tcp::{build_segment, parse_segment, FLAG_ACK, FLAG_FIN, FLAG_PSH, FLAG_RST, FLAG_SYN};

const MY_MAC: [u8; 6] = [0x52, 0x54, 0x00, 0x12, 0x34, 0x56];
const PEER_MAC: [u8; 6] = [0x52, 0x55, 0x0A, 0x00, 0x02, 0x02];
const PEER_IP: [u8; 4] = [10, 0, 2, 2];

#[test]
fn checksum_of_rfc1071_example() {
    let data = [0x00, 0x01, 0xf2, 0x03, 0xf4, 0xf5, 0xf6, 0xf7];
    assert_eq!(checksum16(&data), 0x220d);
    // An odd trailing byte counts as the high half of a word.
    assert_eq!(checksum16(&[0x01]), !0x0100u16);
    assert_eq!(checksum16(&[]), 0xFFFF);
    // Accumulating in pieces gives the same sum as in one go.
    let part = checksum16_accumulate(checksum16_accumulate(0, &data[..4]), &data[4..]);
    assert_eq!(part, 0x2ddf0);
    assert_eq!(checksum16_finish(part), 0x220d);
}

fn arp_request_from_peer(target: [u8; 4]) -> Vec<u8> {
    let mut b = vec![0u8; 64];
    b[0..6].copy_from_slice(&[0xff; 6]);
    b[6..12].copy_from_slice(&PEER_MAC);
    b[12] = 0x08;
    b[13] = 0x06;
    b[14..22].copy_from_slice(&[0, 1, 0x08, 0, 6, 4, 0, 1]);
    b[22..28].copy_from_slice(&PEER_MAC);
    b[28..32].copy_from_slice(&PEER_IP);
    b[38..42].copy_from_slice(&target);
    b
}

#[test]
fn arp_request_for_us_is_answered_in_place() {
    let mut b = arp_request_from_peer(STATIC_IP);
    assert_eq!(handle_frame(&mut b, 42, MY_MAC, STATIC_IP), Some(MIN_FRAME_LEN));
    assert_eq!(&b[0..6], &PEER_MAC);
    assert_eq!(&b[6..12], &MY_MAC);
    assert_eq!(&b[20..22], &[0, 2]);
    assert_eq!(&b[22..28], &MY_MAC);
    assert_eq!(&b[28..32], &STATIC_IP);
    assert_eq!(&b[32..38], &PEER_MAC);
    assert_eq!(&b[38..42], &PEER_IP);
    assert!(b[42..60].iter().all(|&x| x == 0));
}

#[test]
fn frames_not_for_us_are_ignored() {
    let mut b = arp_request_from_peer([10, 0, 2, 99]);
    let before = b.clone();
    assert_eq!(handle_frame(&mut b, 42, MY_MAC, STATIC_IP), None);
    assert_eq!(b, before);
    // Too short for an Ethernet header.
    assert_eq!(handle_frame(&mut b, 10, MY_MAC, STATIC_IP), None);
    // Unknown ethertype.
    b[12] = 0x86;
    b[13] = 0xDD;
    assert_eq!(handle_frame(&mut b, 42, MY_MAC, STATIC_IP), None);
}

fn echo_request() -> Vec<u8> {
    let mut b = vec![0u8; 64];
    b[0..6].copy_from_slice(&MY_MAC);
    b[6..12].copy_from_slice(&PEER_MAC);
    b[12] = 0x08;
    b[13] = 0x00;
    b[14] = 0x45;
    b[16] = 0;
    b[17] = 32;
    b[22] = 64;
    b[23] = 1;
    b[26..30].copy_from_slice(&PEER_IP);
    b[30..34].copy_from_slice(&STATIC_IP);
    let c = checksum16(&b[14..34]);
    b[24] = (c >> 8) as u8;
    b[25] = c as u8;
    b[34] = 8;
    b[38..40].copy_from_slice(&[0x12, 0x34]);
    b[40..42].copy_from_slice(&[0x00, 0x01]);
    b[42..46].copy_from_slice(b"ping");
    let c = checksum16(&b[34..46]);
    b[36] = (c >> 8) as u8;
    b[37] = c as u8;
    b
}

#[test]
fn echo_request_gets_valid_echo_reply() {
    let mut b = echo_request();
    assert_eq!(handle_frame(&mut b, 46, MY_MAC, STATIC_IP), Some(MIN_FRAME_LEN));
    assert_eq!(&b[0..6], &PEER_MAC);
    assert_eq!(&b[6..12], &MY_MAC);
    assert_eq!(&b[26..30], &STATIC_IP);
    assert_eq!(&b[30..34], &PEER_IP);
    assert_eq!(b[22], 64);
    assert_eq!(b[34], 0);
    assert_eq!(&b[38..46], &[0x12, 0x34, 0x00, 0x01, b'p', b'i', b'n', b'g']);
    // Both checksums verify: the sum over each range with its checksum in
    // place folds to all ones.
    assert_eq!(checksum16(&b[14..34]), 0);
    assert_eq!(checksum16(&b[34..46]), 0);
    assert!(b[46..60].iter().all(|&x| x == 0));
}

#[test]
fn echo_request_for_other_host_is_ignored() {
    let mut b = echo_request();
    b[33] = 99;
    assert_eq!(handle_frame(&mut b, 46, MY_MAC, STATIC_IP), None);
}

#[test]
fn pad_to_min_frame_zero_fills() {
    let mut b = vec![7u8; 64];
    assert_eq!(pad_to_min_frame(&mut b, 42), 60);
    assert!(b[42..60].iter().all(|&x| x == 0));
    assert_eq!(b[41], 7);
    assert_eq!(b[60], 7);
    assert_eq!(pad_to_min_frame(&mut b, 61), 61);
}

#[test]
fn arp_round_trip() {
    let mut b = vec![0u8; 64];
    assert_eq!(build_arp_request(&mut b, MY_MAC, STATIC_IP, PEER_IP), MIN_FRAME_LEN);
    assert_eq!(parse_arp_reply(&b, 60, PEER_IP), None);
    assert_eq!(handle_frame(&mut b, 60, PEER_MAC, PEER_IP), Some(MIN_FRAME_LEN));
    assert_eq!(&b[0..6], &MY_MAC);
    assert_eq!(parse_arp_reply(&b, 60, PEER_IP), Some(PEER_MAC));
    assert_eq!(parse_arp_reply(&b, 60, [1, 2, 3, 4]), None);
    assert_eq!(parse_arp_reply(&b, 20, PEER_IP), None);
}

#[test]
fn segment_round_trip() {
    let mut b = vec![0u8; NIC_MAX_FRAME];
    let n = build_segment(
        &mut b,
        MY_MAC,
        STATIC_IP,
        PEER_MAC,
        PEER_IP,
        LOCAL_PORT,
        80,
        0xDEAD_BEEF,
        0x0102_0304,
        FLAG_PSH | FLAG_ACK,
        2048,
        b"hello",
    );
    assert_eq!(n, 60);
    assert_eq!(&b[0..6], &PEER_MAC);
    assert_eq!(checksum16(&b[14..34]), 0);
    let seg = parse_segment(&b, n, STATIC_IP).unwrap();
    assert_eq!(seg.src_port, LOCAL_PORT);
    assert_eq!(seg.dst_port, 80);
    assert_eq!(seg.seq, 0xDEAD_BEEF);
    assert_eq!(seg.ack, 0x0102_0304);
    assert_eq!(seg.flags, FLAG_PSH | FLAG_ACK);
    assert_eq!(seg.window, 2048);
    assert_eq!(seg.payload, b"hello");
    // A frame from another source, or cut short, is not a segment.
    assert!(parse_segment(&b, n, PEER_IP).is_none());
    assert!(parse_segment(&b, 40, STATIC_IP).is_none());
    // A long payload is not padded.
    let payload = vec![0xAB; 100];
    let mut b = vec![0u8; NIC_MAX_FRAME];
    let n = build_segment(&mut b, MY_MAC, STATIC_IP, PEER_MAC, PEER_IP, 1, 2, 3, 4, FLAG_ACK, 5, &payload);
    assert_eq!(n, 154);
    assert_eq!(parse_segment(&b, n, STATIC_IP).unwrap().payload, &payload[..]);
}

fn client(w0: u32, w1: u32, w2: u32, slot: u32) -> RecvResult {
    RecvResult { sender: 3, w0, w1, w2, transferred_slot: slot }
}

fn from_peer(nic: &mut Vec<u8>, seq: u32, ack: u32, flags: u8, payload: &[u8]) -> usize {
    build_segment(nic, PEER_MAC, PEER_IP, MY_MAC, STATIC_IP, 80, LOCAL_PORT, seq, ack, flags, 4096, payload)
}

#[test]
fn tcp_session_connect_send_receive_close() {
    let mut st = NetState::new();
    let mut nic = vec![0u8; NIC_MAX_FRAME];
    let mut cbuf = vec![0u8; TCP_MAX_TRANSFER];
    // Requests before a reply endpoint is known are ignored.
    let out = handle_client_message(client(TCP_OP_CONNECT, 0, 0, 0), MY_MAC, &mut st, &mut nic, &cbuf);
    assert!(out.reply.is_none() && out.frame.is_none());
    let out = handle_client_message(client(TCP_OP_SET_REPLY, 0, 0, 5), MY_MAC, &mut st, &mut nic, &cbuf);
    assert!(out.reply.is_none());
    assert_eq!(st.client_reply, 5);
    let out = handle_client_message(client(TCP_OP_SET_BUFFER, 0, 0, 6), MY_MAC, &mut st, &mut nic, &cbuf);
    assert_eq!(out.map_slot, Some(6));
    // Connecting before the buffer is mapped fails at once.
    let ip_word = u32::from_le_bytes(PEER_IP);
    let out = handle_client_message(client(TCP_OP_CONNECT, ip_word, 80, 0), MY_MAC, &mut st, &mut nic, &cbuf);
    assert_eq!(out.reply, Some(0));
    client_buffer_mapped(&mut st, true);
    assert!(st.client_buf_mapped);
    // Connect: an ARP request for the peer goes out.
    let out = handle_client_message(client(TCP_OP_CONNECT, ip_word, 80, 0), MY_MAC, &mut st, &mut nic, &cbuf);
    assert_eq!(out.frame, Some(60));
    assert_eq!(out.reply, None);
    assert_eq!(st.pending_op, PendingOp::Connect);
    assert_eq!(st.conn.as_ref().unwrap().state, ConnState::ArpPending);
    assert_eq!(&nic[38..42], &PEER_IP);
    // The peer answers the ARP request: a SYN goes out.
    assert_eq!(handle_frame(&mut nic, 60, PEER_MAC, PEER_IP), Some(60));
    let eff = handle_nic_frame(&mut nic, 60, MY_MAC, &mut st, &mut cbuf);
    assert_eq!(eff.frame, Some(60));
    assert_eq!(eff.reply, None);
    let c = st.conn.as_ref().unwrap();
    assert_eq!(c.state, ConnState::SynSent);
    assert_eq!(c.peer_mac, PEER_MAC);
    let syn = parse_segment(&nic, 60, STATIC_IP).unwrap();
    assert_eq!(syn.flags, FLAG_SYN);
    assert_eq!(syn.seq, INITIAL_SEQ);
    assert_eq!(syn.dst_port, 80);
    // SYN-ACK: established, the connect is answered with 1 and ACKed.
    let n = from_peer(&mut nic, 1000, INITIAL_SEQ + 1, FLAG_SYN | FLAG_ACK, b"");
    let eff = handle_nic_frame(&mut nic, n, MY_MAC, &mut st, &mut cbuf);
    assert_eq!(eff.reply, Some(1));
    assert_eq!(eff.frame, Some(60));
    assert_eq!(st.pending_op, PendingOp::Idle);
    let c = st.conn.as_ref().unwrap();
    assert_eq!(c.state, ConnState::Established);
    assert_eq!(c.rcv_nxt, 1001);
    let ack = parse_segment(&nic, 60, STATIC_IP).unwrap();
    assert_eq!((ack.seq, ack.ack, ack.flags), (INITIAL_SEQ + 1, 1001, FLAG_ACK));
    // Send: one segment with the client's bytes; the sequence advances.
    cbuf[..5].copy_from_slice(b"hello");
    let out = handle_client_message(client(TCP_OP_SEND, 5, 0, 0), MY_MAC, &mut st, &mut nic, &cbuf);
    assert_eq!(out.reply, Some(5));
    let n = out.frame.unwrap();
    let seg = parse_segment(&nic, n, STATIC_IP).unwrap();
    assert_eq!(seg.payload, b"hello");
    assert_eq!(seg.flags, FLAG_PSH | FLAG_ACK);
    assert_eq!(seg.seq, INITIAL_SEQ + 1);
    assert_eq!(st.conn.as_ref().unwrap().snd_nxt, INITIAL_SEQ + 6);
    // Receive with nothing buffered waits.
    let out = handle_client_message(client(TCP_OP_RECV, 0, 0, 0), MY_MAC, &mut st, &mut nic, &cbuf);
    assert_eq!(out.reply, None);
    assert_eq!(st.pending_op, PendingOp::Recv);
    // Data arrives: the waiting receive is answered with its length.
    let n = from_peer(&mut nic, 1001, INITIAL_SEQ + 6, FLAG_PSH | FLAG_ACK, b"world");
    let eff = handle_nic_frame(&mut nic, n, MY_MAC, &mut st, &mut cbuf);
    assert_eq!(eff.reply, Some(5));
    assert_eq!(&cbuf[..5], b"world");
    assert_eq!(st.buffered_len, 0);
    let ack = parse_segment(&nic, 60, STATIC_IP).unwrap();
    assert_eq!(ack.ack, 1006);
    // Close: a FIN goes out; the peer's FIN+ACK finishes the connection.
    let out = handle_client_message(client(TCP_OP_CLOSE, 0, 0, 0), MY_MAC, &mut st, &mut nic, &cbuf);
    assert_eq!(out.reply, None);
    let fin = parse_segment(&nic, out.frame.unwrap(), STATIC_IP).unwrap();
    assert_eq!(fin.flags, FLAG_FIN | FLAG_ACK);
    assert_eq!(st.conn.as_ref().unwrap().state, ConnState::FinWait1);
    let n = from_peer(&mut nic, 1006, INITIAL_SEQ + 7, FLAG_FIN | FLAG_ACK, b"");
    let eff = handle_nic_frame(&mut nic, n, MY_MAC, &mut st, &mut cbuf);
    assert_eq!(eff.reply, Some(1));
    assert!(st.conn.is_none());
    assert_eq!(st.pending_op, PendingOp::Idle);
}

fn established() -> (NetState, Vec<u8>, Vec<u8>) {
    let mut st = NetState::new();
    let mut nic = vec![0u8; NIC_MAX_FRAME];
    let mut cbuf = vec![0u8; TCP_MAX_TRANSFER];
    handle_client_message(client(TCP_OP_SET_REPLY, 0, 0, 5), MY_MAC, &mut st, &mut nic, &cbuf);
    client_buffer_mapped(&mut st, true);
    handle_client_message(client(TCP_OP_CONNECT, u32::from_le_bytes(PEER_IP), 80, 0), MY_MAC, &mut st, &mut nic, &cbuf);
    handle_frame(&mut nic, 60, PEER_MAC, PEER_IP);
    handle_nic_frame(&mut nic, 60, MY_MAC, &mut st, &mut cbuf);
    let n = from_peer(&mut nic, 1000, INITIAL_SEQ + 1, FLAG_SYN | FLAG_ACK, b"");
    handle_nic_frame(&mut nic, n, MY_MAC, &mut st, &mut cbuf);
    assert_eq!(st.conn.as_ref().unwrap().state, ConnState::Established);
    (st, nic, cbuf)
}

#[test]
fn data_is_buffered_until_received_and_peer_fin_answered() {
    let (mut st, mut nic, mut cbuf) = established();
    let n = from_peer(&mut nic, 1001, INITIAL_SEQ + 1, FLAG_ACK, b"abc");
    let eff = handle_nic_frame(&mut nic, n, MY_MAC, &mut st, &mut cbuf);
    assert_eq!(eff.reply, None);
    assert_eq!(st.buffered_len, 3);
    // Out-of-sequence data is not taken.
    let n = from_peer(&mut nic, 5000, INITIAL_SEQ + 1, FLAG_ACK, b"zzz");
    let eff = handle_nic_frame(&mut nic, n, MY_MAC, &mut st, &mut cbuf);
    assert_eq!(st.buffered_len, 3);
    assert_eq!(eff.reply, None);
    // The peer's FIN is answered with FIN+ACK.
    let n = from_peer(&mut nic, 1004, INITIAL_SEQ + 1, FLAG_FIN | FLAG_ACK, b"");
    let eff = handle_nic_frame(&mut nic, n, MY_MAC, &mut st, &mut cbuf);
    assert_eq!(eff.frame, Some(60));
    assert_eq!(st.conn.as_ref().unwrap().state, ConnState::LastAck);
    let finack = parse_segment(&nic, 60, STATIC_IP).unwrap();
    assert_eq!(finack.flags, FLAG_FIN | FLAG_ACK);
    assert_eq!(finack.ack, 1005);
    // A receive now returns what was buffered at once.
    let out = handle_client_message(client(TCP_OP_RECV, 0, 0, 0), MY_MAC, &mut st, &mut nic, &cbuf);
    assert_eq!(out.reply, Some(3));
    assert_eq!(&cbuf[..3], b"abc");
    assert_eq!(st.buffered_len, 0);
    // And after that, receive reports end of stream.
    let out = handle_client_message(client(TCP_OP_RECV, 0, 0, 0), MY_MAC, &mut st, &mut nic, &cbuf);
    assert_eq!(out.reply, Some(0));
}

#[test]
fn reset_ends_connection_and_answers_pending_receive() {
    let (mut st, mut nic, mut cbuf) = established();
    handle_client_message(client(TCP_OP_RECV, 0, 0, 0), MY_MAC, &mut st, &mut nic, &cbuf);
    let n = from_peer(&mut nic, 1001, 0, FLAG_RST, b"");
    let eff = handle_nic_frame(&mut nic, n, MY_MAC, &mut st, &mut cbuf);
    assert_eq!(eff.reply, Some(0));
    assert!(st.conn.is_none());
    // With no connection, sends fail and closes succeed at once.
    let out = handle_client_message(client(TCP_OP_SEND, 5, 0, 0), MY_MAC, &mut st, &mut nic, &cbuf);
    assert_eq!(out.reply, Some(0));
    let out = handle_client_message(client(TCP_OP_CLOSE, 0, 0, 0), MY_MAC, &mut st, &mut nic, &cbuf);
    assert_eq!(out.reply, Some(1));
}

#[test]
fn send_is_capped_at_one_segment() {
    let (mut st, mut nic, cbuf) = established();
    let out = handle_client_message(client(TCP_OP_SEND, 100_000, 0, 0), MY_MAC, &mut st, &mut nic, &cbuf);
    assert_eq!(out.reply, Some(1464));
    assert_eq!(out.frame, Some(14 + 20 + 20 + 1464));
}

#[test]
fn pending_request_fails_when_attempts_run_out() {
    let (mut st, mut nic, cbuf) = established();
    handle_client_message(client(TCP_OP_RECV, 0, 0, 0), MY_MAC, &mut st, &mut nic, &cbuf);
    assert_eq!(st.conn.as_ref().unwrap().attempts_left, MAX_ATTEMPTS);
    assert_eq!(tick(&mut st), Tick::Poll);
    assert_eq!(st.conn.as_ref().unwrap().attempts_left, MAX_ATTEMPTS - 1);
    st.conn.as_mut().unwrap().attempts_left = 0;
    st.buffered_len = 2;
    assert_eq!(tick(&mut st), Tick::Failed(Some(2)));
    assert!(st.conn.is_none());
    assert_eq!(st.pending_op, PendingOp::Idle);
    assert_eq!(st.buffered_len, 0);
    // Idle: nothing to count.
    assert_eq!(tick(&mut st), Tick::Poll);
}

#[test]
fn fail_pending_op_answers_each_kind() {
    let mut st = NetState::new();
    assert_eq!(fail_pending_op(&mut st), None);
    st.pending_op = PendingOp::Connect;
    assert_eq!(fail_pending_op(&mut st), Some(0));
    st.pending_op = PendingOp::Close;
    assert_eq!(fail_pending_op(&mut st), Some(1));
    st.pending_op = PendingOp::Recv;
    st.buffered_len = 7;
    assert_eq!(fail_pending_op(&mut st), Some(7));
    assert_eq!(st.buffered_len, 0);
}

#[test]
fn idle_backoff_doubles_up_to_cap() {
    assert_eq!(next_idle_yields(1), 2);
    assert_eq!(next_idle_yields(4), 8);
    assert_eq!(next_idle_yields(8), 16);
    assert_eq!(next_idle_yields(16), 16);
}

#[test]
fn failed_mapping_leaves_buffer_unmapped() {
    let mut st = NetState::new();
    client_buffer_mapped(&mut st, false);
    assert!(!st.client_buf_mapped);
}

#[test]
fn nic_frames_without_connection_go_to_responder() {
    let mut st = NetState::new();
    let mut cbuf = vec![0u8; TCP_MAX_TRANSFER];
    let mut b = arp_request_from_peer(STATIC_IP);
    b.resize(NIC_MAX_FRAME, 0);
    let eff = handle_nic_frame(&mut b, 42, MY_MAC, &mut st, &mut cbuf);
    assert_eq!(eff.frame, Some(60));
    assert_eq!(eff.reply, None);
    assert_eq!(&b[28..32], &STATIC_IP);
}

#[test]
fn stash_keeps_two_in_order() {
    let mut s = Stash::new();
    assert_eq!(s.pop_front(), None);
    s.push(client(1, 0, 0, 0));
    s.push(client(2, 0, 0, 0));
    s.push(client(3, 0, 0, 0));
    assert_eq!(s.pop_front(), Some(client(1, 0, 0, 0)));
    s.push(client(4, 0, 0, 0));
    assert_eq!(s.pop_front(), Some(client(2, 0, 0, 0)));
    assert_eq!(s.pop_front(), Some(client(4, 0, 0, 0)));
    assert_eq!(s.pop_front(), None);
}

#[test]
fn segment_tcp_checksum_verifies_over_pseudo_header() {
    let mut b = vec![0u8; NIC_MAX_FRAME];
    let payload = b"odd-length payload!";
    let n = build_segment(&mut b, MY_MAC, STATIC_IP, PEER_MAC, PEER_IP, LOCAL_PORT, 80, 7, 9, FLAG_ACK, 100, payload);
    assert_eq!(n, 54 + payload.len());
    let seg_len = 20 + payload.len() as u16;
    let mut pseudo = Vec::new();
    pseudo.extend_from_slice(&STATIC_IP);
    pseudo.extend_from_slice(&PEER_IP);
    pseudo.extend_from_slice(&[0, 6]);
    pseudo.extend_from_slice(&seg_len.to_be_bytes());
    let sum = checksum16_accumulate(checksum16_accumulate(0, &pseudo), &b[34..n]);
    assert_eq!(checksum16_finish(sum), 0);
    assert_eq!(checksum16(&b[14..34]), 0);
}

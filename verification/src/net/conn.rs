//! The TCP client's connection state machine: how one incoming frame
//! advances the single active connection, how one client request is
//! answered, and what happens when a pending request runs out of attempts.
//!
//! Fixed advertised window, no congestion control and no retransmission
//! timers: every wait is bounded by a count of main-loop iterations
//! (`MAX_ATTEMPTS`) instead of by time. Each step reports what it decided
//! as `Effects`: a frame it built in the NIC buffer to send, and a word to
//! send back to the client; performing both sends is the caller's job,
//! frame first.
use vstd::prelude::*;
use crate::bytes::{splice, write_bytes};
use crate::ipc::RecvResult;
use crate::net::proto::{parse_arp_reply, is_arp_reply_from, build_arp_request, arp_request_frame, handle_frame, frame_reply, MIN_FRAME_LEN};
use crate::net::tcp::{build_segment, parse_segment, parse_segment_spec, segment_frame, SegmentModel, FLAG_ACK, FLAG_FIN, FLAG_PSH, FLAG_RST, FLAG_SYN};

verus! {

/// This host's own address.
pub const STATIC_IP: [u8; 4] = [10, 0, 2, 15];
/// The one local port every connection uses.
pub const LOCAL_PORT: u16 = 51820;
pub const INITIAL_SEQ: u32 = 0x0001_0000;
/// Advertised receive window, and the cap on one send.
pub const WINDOW: u16 = 2048;
/// How many main-loop iterations a pending request may wait.
pub const MAX_ATTEMPTS: u32 = 2_000_000;
/// Cap on the idle-poll backoff of the main loop.
pub const MAX_IDLE_YIELDS: u32 = 16;
/// Largest Ethernet frame the NIC driver moves, and so the NIC buffer size.
pub const NIC_MAX_FRAME: usize = 1518;
/// Size of the client's shared data buffer.
pub const TCP_MAX_TRANSFER: usize = 4096;
/// Largest payload one segment can carry after this client's fixed headers.
pub const MAX_SEGMENT_PAYLOAD: usize = 1464;

/// Client protocol operations.
pub const TCP_OP_SET_BUFFER: u32 = 1;
pub const TCP_OP_SET_REPLY: u32 = 2;
pub const TCP_OP_CONNECT: u32 = 3;
pub const TCP_OP_SEND: u32 = 4;
pub const TCP_OP_RECV: u32 = 5;
pub const TCP_OP_CLOSE: u32 = 6;

#[derive(Clone, Copy, Debug, PartialEq, Eq, Structural)]
pub enum ConnState {
    ArpPending,
    SynSent,
    Established,
    /// The peer's FIN was answered with ours; waiting for its final ACK.
    LastAck,
    /// Our own FIN went out; waiting for the peer's ACK and/or FIN.
    FinWait1,
    /// Our FIN was ACKed; waiting for the peer's FIN.
    FinWait2,
}

#[derive(Clone, Copy, Debug, PartialEq, Eq, Structural)]
pub enum PendingOp {
    Idle,
    Connect,
    Recv,
    Close,
}

/// What handling one frame did for the active connection.
#[derive(Clone, Copy, Debug, PartialEq, Eq, Structural)]
pub enum Outcome {
    /// Not for the connection; fall back to the ARP/ICMP responder.
    NotMine,
    /// Consumed by the connection.
    Handled,
    /// Consumed, and the connection is finished (reset or closed).
    Done,
}

#[derive(Debug)]
pub struct Connection {
    pub peer_ip: [u8; 4],
    pub peer_port: u16,
    pub peer_mac: [u8; 6],
    pub state: ConnState,
    pub snd_nxt: u32,
    pub rcv_nxt: u32,
    pub attempts_left: u32,
}

/// What a step decided besides its state change: the length of a frame it
/// built at the start of the NIC buffer, to be sent, and a word to send to
/// the client's reply endpoint.
#[derive(Debug)]
pub struct Effects {
    pub frame: Option<usize>,
    pub reply: Option<u32>,
}

/// `x + y` modulo 2^32.
pub open spec fn wadd(x: u32, y: u32) -> u32 {
    if x + y > u32::MAX { (x + y - 0x1_0000_0000) as u32 } else { (x + y) as u32 }
}

/// The frame of a control segment (no payload) on connection `c`.
pub open spec fn control_frame(b: Seq<u8>, my_mac: Seq<u8>, c: Connection, seq: u32, ack: u32, flags: u8) -> Seq<u8> {
    segment_frame(b, my_mac, STATIC_IP@, c.peer_mac@, c.peer_ip@, LOCAL_PORT, c.peer_port, seq, ack, flags, WINDOW, Seq::empty())
}

/// The result of one step of the connection, as values.
pub struct Step {
    pub outcome: Outcome,
    pub conn: Connection,
    pub pending: PendingOp,
    pub buffered: nat,
    /// Bytes appended to the client's buffer at `buffered` (before the step).
    pub delivered: Seq<u8>,
    /// `(seq, ack, flags)` of the control segment sent, if any.
    pub sent: Option<(u32, u32, u8)>,
    pub reply: Option<u32>,
}

/// A step that leaves everything alone and reports `NotMine`.
pub open spec fn not_mine(c: Connection, pending: PendingOp, buffered: nat) -> Step {
    Step { outcome: Outcome::NotMine, conn: c, pending, buffered, delivered: Seq::empty(), sent: None, reply: None }
}

/// The reply owed to a pending request of kind `op` when the connection
/// finishes, and whether one is owed at all.
pub open spec fn reply_if(pending: PendingOp, op: PendingOp, word: u32) -> Option<u32> {
    if pending == op { Some(word) } else { None }
}

/// The pending request after answering one of kind `op`.
pub open spec fn clear_if(pending: PendingOp, op: PendingOp) -> PendingOp {
    if pending == op { PendingOp::Idle } else { pending }
}

/// How the connection in state `SynSent` reacts to segment `seg`.
pub open spec fn syn_sent_step(c: Connection, seg: SegmentModel, pending: PendingOp, buffered: nat) -> Step {
    if seg.flags & FLAG_RST != 0 {
        Step { outcome: Outcome::Done, conn: c, pending: clear_if(pending, PendingOp::Connect), buffered,
            delivered: Seq::empty(), sent: None, reply: reply_if(pending, PendingOp::Connect, 0) }
    } else if seg.flags & FLAG_SYN != 0 && seg.flags & FLAG_ACK != 0 && seg.ack == wadd(c.snd_nxt, 1) {
        let c2 = Connection { snd_nxt: wadd(c.snd_nxt, 1), rcv_nxt: wadd(seg.seq, 1), state: ConnState::Established, ..c };
        Step { outcome: Outcome::Handled, conn: c2, pending: clear_if(pending, PendingOp::Connect), buffered,
            delivered: Seq::empty(), sent: Some((c2.snd_nxt, c2.rcv_nxt, FLAG_ACK)),
            reply: reply_if(pending, PendingOp::Connect, 1) }
    } else {
        not_mine(c, pending, buffered)
    }
}

/// The part of `payload` an established connection accepts into a client
/// buffer already holding `buffered` bytes: all of it that fits, if it is
/// the next in sequence.
pub open spec fn accepted(c: Connection, seg: SegmentModel, buffered: nat) -> Seq<u8> {
    if seg.payload.len() > 0 && seg.seq == c.rcv_nxt {
        let room = TCP_MAX_TRANSFER - buffered;
        seg.payload.take(if seg.payload.len() < room { seg.payload.len() as int } else { room })
    } else {
        Seq::empty()
    }
}

/// How the connection in state `Established` reacts to segment `seg`.
pub open spec fn established_step(c: Connection, seg: SegmentModel, pending: PendingOp, buffered: nat) -> Step {
    if seg.flags & FLAG_RST != 0 {
        Step { outcome: Outcome::Done, conn: c, pending: PendingOp::Idle, buffered, delivered: Seq::empty(), sent: None,
            reply: if pending == PendingOp::Recv { Some(0u32) } else if pending == PendingOp::Close { Some(1u32) } else { None } }
    } else {
        let advanced = seg.payload.len() > 0 && seg.seq == c.rcv_nxt;
        let data = accepted(c, seg, buffered);
        let rcv1 = wadd(c.rcv_nxt, data.len() as u32);
        let buffered1 = buffered + data.len();
        let fin = seg.flags & FLAG_FIN != 0 && wadd(seg.seq, seg.payload.len() as u32) == rcv1;
        if !advanced && !fin {
            not_mine(c, pending, buffered)
        } else {
            let rcv2 = if fin { wadd(rcv1, 1) } else { rcv1 };
            let snd2 = if fin { wadd(c.snd_nxt, 1) } else { c.snd_nxt };
            let c2 = Connection {
                rcv_nxt: rcv2,
                snd_nxt: snd2,
                state: if fin { ConnState::LastAck } else { c.state },
                attempts_left: if fin { MAX_ATTEMPTS } else { c.attempts_left },
                ..c
            };
            Step {
                outcome: Outcome::Handled,
                conn: c2,
                pending: clear_if(pending, PendingOp::Recv),
                buffered: if pending == PendingOp::Recv { 0 } else { buffered1 },
                delivered: data,
                sent: Some((c.snd_nxt, rcv2, if fin { FLAG_FIN | FLAG_ACK } else { FLAG_ACK })),
                reply: reply_if(pending, PendingOp::Recv, buffered1 as u32),
            }
        }
    }
}

/// How the connection in a closing state reacts to segment `seg`.
pub open spec fn closing_step(c: Connection, seg: SegmentModel, pending: PendingOp, buffered: nat) -> Step {
    let has_fin = seg.flags & FLAG_FIN != 0;
    let acks_ours = seg.flags & FLAG_ACK != 0 && seg.ack == c.snd_nxt;
    if c.state == ConnState::LastAck {
        if acks_ours {
            Step { outcome: Outcome::Done, conn: c, pending: clear_if(pending, PendingOp::Close), buffered,
                delivered: Seq::empty(), sent: None, reply: reply_if(pending, PendingOp::Close, 1) }
        } else {
            not_mine(c, pending, buffered)
        }
    } else if has_fin {
        let c2 = Connection { rcv_nxt: wadd(seg.seq, 1), ..c };
        Step { outcome: Outcome::Done, conn: c2, pending: clear_if(pending, PendingOp::Close), buffered,
            delivered: Seq::empty(), sent: Some((c.snd_nxt, c2.rcv_nxt, FLAG_ACK)),
            reply: reply_if(pending, PendingOp::Close, 1) }
    } else if c.state == ConnState::FinWait1 && acks_ours {
        Step { outcome: Outcome::Handled, conn: Connection { state: ConnState::FinWait2, attempts_left: MAX_ATTEMPTS, ..c },
            pending, buffered, delivered: Seq::empty(), sent: None, reply: None }
    } else {
        not_mine(c, pending, buffered)
    }
}

/// How connection `c` reacts to the frame `b[..len]`.
pub open spec fn advance_spec(b: Seq<u8>, len: int, c: Connection, pending: PendingOp, buffered: nat) -> Step {
    if c.state == ConnState::ArpPending {
        if is_arp_reply_from(b, len, c.peer_ip@) {
            let mac = b.subrange(22, 28);
            let c2 = Connection { peer_mac: choose|m: [u8; 6]| m@ == mac, state: ConnState::SynSent, attempts_left: MAX_ATTEMPTS, ..c };
            Step { outcome: Outcome::Handled, conn: c2, pending, buffered, delivered: Seq::empty(),
                sent: Some((c.snd_nxt, 0, FLAG_SYN)), reply: None }
        } else {
            not_mine(c, pending, buffered)
        }
    } else {
        match parse_segment_spec(b, len, c.peer_ip@) {
            Some(seg) => if seg.dst_port != LOCAL_PORT || seg.src_port != c.peer_port {
                not_mine(c, pending, buffered)
            } else if c.state == ConnState::SynSent {
                syn_sent_step(c, seg, pending, buffered)
            } else if c.state == ConnState::Established {
                established_step(c, seg, pending, buffered)
            } else {
                closing_step(c, seg, pending, buffered)
            },
            None => not_mine(c, pending, buffered),
        }
    }
}

fn no_effects() -> (r: Effects)
    ensures
        r.frame is None && r.reply is None,
{
    Effects { frame: None, reply: None }
}

/// Builds a control segment (no payload) for connection `c` into `buf`.
fn send_control(buf: &mut [u8], my_mac: [u8; 6], c: &Connection, seq: u32, ack: u32, flags: u8) -> (n: usize)
    requires
        old(buf)@.len() >= MIN_FRAME_LEN,
    ensures
        n == MIN_FRAME_LEN,
        final(buf)@ == control_frame(old(buf)@, my_mac@, *c, seq, ack, flags),
{
    let empty: Vec<u8> = Vec::new();
    build_segment(buf, my_mac, STATIC_IP, c.peer_mac, c.peer_ip, LOCAL_PORT, c.peer_port, seq, ack, flags, WINDOW, empty.as_slice())
}

/// Advances connection `c` by the frame `buf[..len]` the NIC delivered.
/// Payload that arrives in sequence is appended to the client's buffer
/// `client_buf` at `buffered_len`; an answering control segment, if any, is
/// built over the frame in `buf`.
pub fn advance_connection(
    buf: &mut [u8],
    len: usize,
    my_mac: [u8; 6],
    c: &mut Connection,
    pending_op: &mut PendingOp,
    buffered_len: &mut usize,
    client_buf: &mut [u8],
) -> (r: (Outcome, Effects))
    requires
        old(buf)@.len() >= MIN_FRAME_LEN,
        len <= old(buf)@.len(),
        old(client_buf)@.len() == TCP_MAX_TRANSFER,
        *old(buffered_len) <= TCP_MAX_TRANSFER,
    ensures
        ({
            let st = advance_spec(old(buf)@, len as int, *old(c), *old(pending_op), *old(buffered_len) as nat);
            &&& r.0 == st.outcome
            &&& *final(c) == st.conn
            &&& *final(pending_op) == st.pending
            &&& *final(buffered_len) == st.buffered
            &&& final(client_buf)@ == splice(old(client_buf)@, *old(buffered_len) as int, st.delivered)
            &&& r.1.reply == st.reply
            &&& match st.sent {
                Some((seq, ack, flags)) => r.1.frame == Some(MIN_FRAME_LEN) && final(buf)@ == control_frame(
                    old(buf)@,
                    my_mac@,
                    st.conn,
                    seq,
                    ack,
                    flags,
                ),
                None => r.1.frame is None && final(buf)@ == old(buf)@,
            }
        }),
{
    let ghost b = buf@;
    let ghost cl = client_buf@;
    let ghost bl = *buffered_len;
    proof {
        assert(splice(cl, bl as int, Seq::empty()) =~= cl);
    }
    if c.state == ConnState::ArpPending {
        match parse_arp_reply(buf, len, c.peer_ip) {
            None => {
                return (Outcome::NotMine, no_effects());
            },
            Some(mac) => {
                proof {
                    let m = choose|m: [u8; 6]| m@ == b.subrange(22, 28);
                    assert(m@ == mac@);
                    assert(m == mac);
                }
                c.peer_mac = mac;
                c.state = ConnState::SynSent;
                c.attempts_left = MAX_ATTEMPTS;
                let n = send_control(buf, my_mac, c, c.snd_nxt, 0, FLAG_SYN);
                proof {
                    let st = advance_spec(b, len as int, *old(c), *old(pending_op), bl as nat);
                    assert(st.outcome == Outcome::Handled);
                    assert(c.peer_mac == st.conn.peer_mac);
                    assert(c.peer_ip == st.conn.peer_ip);
                    assert(c.state == st.conn.state);
                    assert(c.snd_nxt == st.conn.snd_nxt);
                    assert(c.rcv_nxt == st.conn.rcv_nxt);
                    assert(c.attempts_left == st.conn.attempts_left);
                    assert(c.peer_port == st.conn.peer_port);
                    assert(*c == st.conn);
                    assert(st.sent == Some((old(c).snd_nxt, 0u32, FLAG_SYN)));
                    assert(buf@ == control_frame(b, my_mac@, st.conn, old(c).snd_nxt, 0, FLAG_SYN));
                    assert(*pending_op == st.pending);
                    assert(*buffered_len == st.buffered);
                    assert(client_buf@ == splice(cl, bl as int, st.delivered));
                }
                return (Outcome::Handled, Effects { frame: Some(n), reply: None });
            },
        }
    }
    let seg = match parse_segment(buf, len, c.peer_ip) {
        Some(s) => s,
        None => {
            return (Outcome::NotMine, no_effects());
        },
    };
    if seg.dst_port != LOCAL_PORT || seg.src_port != c.peer_port {
        return (Outcome::NotMine, no_effects());
    }
    let flags = seg.flags;
    let seg_seq = seg.seq;
    let seg_ack = seg.ack;
    match c.state {
        ConnState::SynSent => {
            if flags & FLAG_RST != 0 {
                let mut reply = None;
                if *pending_op == PendingOp::Connect {
                    reply = Some(0u32);
                    *pending_op = PendingOp::Idle;
                }
                return (Outcome::Done, Effects { frame: None, reply });
            }
            if flags & FLAG_SYN != 0 && flags & FLAG_ACK != 0 && seg_ack == c.snd_nxt.wrapping_add(1) {
                c.snd_nxt = c.snd_nxt.wrapping_add(1);
                c.rcv_nxt = seg_seq.wrapping_add(1);
                c.state = ConnState::Established;
                let n = send_control(buf, my_mac, c, c.snd_nxt, c.rcv_nxt, FLAG_ACK);
                let mut reply = None;
                if *pending_op == PendingOp::Connect {
                    reply = Some(1u32);
                    *pending_op = PendingOp::Idle;
                }
                return (Outcome::Handled, Effects { frame: Some(n), reply });
            }
            (Outcome::NotMine, no_effects())
        },
        ConnState::Established => {
            if flags & FLAG_RST != 0 {
                let reply = match *pending_op {
                    PendingOp::Recv => Some(0u32),
                    PendingOp::Close => Some(1u32),
                    _ => None,
                };
                *pending_op = PendingOp::Idle;
                return (Outcome::Done, Effects { frame: None, reply });
            }
            let plen = seg.payload.len();
            let mut advanced = false;
            if plen > 0 && seg_seq == c.rcv_nxt {
                let room = TCP_MAX_TRANSFER - *buffered_len;
                let n = if plen < room { plen } else { room };
                write_bytes(client_buf, *buffered_len, &seg.payload[0..n]);
                assert(seg.payload@.subrange(0, n as int) =~= seg.payload@.take(n as int));
                *buffered_len = *buffered_len + n;
                c.rcv_nxt = c.rcv_nxt.wrapping_add(n as u32);
                advanced = true;
            }
            let fin = flags & FLAG_FIN != 0 && seg_seq.wrapping_add(plen as u32) == c.rcv_nxt;
            if !advanced && !fin {
                return (Outcome::NotMine, no_effects());
            }
            if fin {
                c.rcv_nxt = c.rcv_nxt.wrapping_add(1);
            }
            let out_flags = if fin { FLAG_FIN | FLAG_ACK } else { FLAG_ACK };
            let seq = c.snd_nxt;
            if fin {
                c.snd_nxt = c.snd_nxt.wrapping_add(1);
            }
            let n = send_control(buf, my_mac, c, seq, c.rcv_nxt, out_flags);
            if fin {
                c.state = ConnState::LastAck;
                c.attempts_left = MAX_ATTEMPTS;
            }
            let mut reply = None;
            if *pending_op == PendingOp::Recv {
                reply = Some(*buffered_len as u32);
                *buffered_len = 0;
                *pending_op = PendingOp::Idle;
            }
            (Outcome::Handled, Effects { frame: Some(n), reply })
        },
        ConnState::LastAck => {
            if flags & FLAG_ACK != 0 && seg_ack == c.snd_nxt {
                let mut reply = None;
                if *pending_op == PendingOp::Close {
                    reply = Some(1u32);
                    *pending_op = PendingOp::Idle;
                }
                return (Outcome::Done, Effects { frame: None, reply });
            }
            (Outcome::NotMine, no_effects())
        },
        ConnState::FinWait1 => {
            if flags & FLAG_FIN != 0 {
                c.rcv_nxt = seg_seq.wrapping_add(1);
                let n = send_control(buf, my_mac, c, c.snd_nxt, c.rcv_nxt, FLAG_ACK);
                let mut reply = None;
                if *pending_op == PendingOp::Close {
                    reply = Some(1u32);
                    *pending_op = PendingOp::Idle;
                }
                return (Outcome::Done, Effects { frame: Some(n), reply });
            }
            if flags & FLAG_ACK != 0 && seg_ack == c.snd_nxt {
                c.state = ConnState::FinWait2;
                c.attempts_left = MAX_ATTEMPTS;
                return (Outcome::Handled, no_effects());
            }
            (Outcome::NotMine, no_effects())
        },
        ConnState::FinWait2 => {
            if flags & FLAG_FIN == 0 {
                return (Outcome::NotMine, no_effects());
            }
            c.rcv_nxt = seg_seq.wrapping_add(1);
            let n = send_control(buf, my_mac, c, c.snd_nxt, c.rcv_nxt, FLAG_ACK);
            let mut reply = None;
            if *pending_op == PendingOp::Close {
                reply = Some(1u32);
                *pending_op = PendingOp::Idle;
            }
            (Outcome::Done, Effects { frame: Some(n), reply })
        },
        ConnState::ArpPending => {
            (Outcome::NotMine, no_effects())
        },
    }
}

// ---------------------------------------------------------------------
// The service around the connection.
// ---------------------------------------------------------------------

/// The TCP service's state: the one active connection, the client request
/// waiting on it, how many received bytes sit in the client's buffer, the
/// client's reply endpoint (`0` = none yet) and whether the client's buffer
/// is mapped.
#[derive(Debug)]
pub struct NetState {
    pub conn: Option<Connection>,
    pub pending_op: PendingOp,
    pub buffered_len: usize,
    pub client_reply: u32,
    pub client_buf_mapped: bool,
}

/// The service state after a connection step that consumed the frame.
pub open spec fn after_step(st: NetState, step: Step) -> NetState {
    NetState {
        conn: if step.outcome == Outcome::Done { None } else { Some(step.conn) },
        pending_op: step.pending,
        buffered_len: step.buffered as usize,
        ..st
    }
}

/// The step the active connection (if any) takes on frame `b[..len]`.
pub open spec fn conn_step(b: Seq<u8>, len: int, st: NetState) -> Option<Step> {
    match st.conn {
        Some(c) => {
            let step = advance_spec(b, len, c, st.pending_op, st.buffered_len as nat);
            if step.outcome == Outcome::NotMine { None } else { Some(step) }
        },
        None => None,
    }
}

impl NetState {
    /// No connection, no client yet.
    pub fn new() -> (r: Self)
        ensures
            r.conn is None,
            r.pending_op == PendingOp::Idle,
            r.buffered_len == 0,
            r.client_reply == 0,
            !r.client_buf_mapped,
    {
        NetState { conn: None, pending_op: PendingOp::Idle, buffered_len: 0, client_reply: 0, client_buf_mapped: false }
    }
}

/// Handles one frame the NIC delivered: the active connection gets it
/// first; whatever the connection does not consume goes to the standing
/// ARP/ICMP responder, whose reply (if any) is built in place in `buf`.
pub fn handle_nic_frame(buf: &mut [u8], len: usize, my_mac: [u8; 6], st: &mut NetState, client_buf: &mut [u8]) -> (r: Effects)
    requires
        old(buf)@.len() >= MIN_FRAME_LEN,
        len <= old(buf)@.len(),
        old(client_buf)@.len() == TCP_MAX_TRANSFER,
        old(st).buffered_len <= TCP_MAX_TRANSFER,
    ensures
        final(st).buffered_len <= TCP_MAX_TRANSFER,
        match conn_step(old(buf)@, len as int, *old(st)) {
            Some(step) => {
                &&& *final(st) == after_step(*old(st), step)
                &&& final(client_buf)@ == splice(old(client_buf)@, old(st).buffered_len as int, step.delivered)
                &&& r.reply == step.reply
                &&& match step.sent {
                    Some((seq, ack, flags)) => r.frame == Some(MIN_FRAME_LEN) && final(buf)@ == control_frame(
                        old(buf)@,
                        my_mac@,
                        step.conn,
                        seq,
                        ack,
                        flags,
                    ),
                    None => r.frame is None && final(buf)@ == old(buf)@,
                }
            },
            None => {
                &&& *final(st) == *old(st)
                &&& final(client_buf)@ == old(client_buf)@
                &&& r.reply is None
                &&& match frame_reply(old(buf)@, len as int, my_mac@, STATIC_IP@) {
                    Some((f, n)) => r.frame == Some(n as usize) && final(buf)@ == f,
                    None => r.frame is None && final(buf)@ == old(buf)@,
                }
            },
        },
{
    let ghost b = buf@;
    let ghost cl = client_buf@;
    let ghost st0 = *st;
    match st.conn.take() {
        Some(mut c) => {
            let (outcome, eff) = advance_connection(buf, len, my_mac, &mut c, &mut st.pending_op, &mut st.buffered_len, client_buf);
            proof {
                lemma_step_buffered_bound(b, len as int, st0.conn->0, st0.pending_op, st0.buffered_len as nat);
            }
            match outcome {
                Outcome::Done => {
                    st.conn = None;
                    eff
                },
                Outcome::Handled => {
                    st.conn = Some(c);
                    eff
                },
                Outcome::NotMine => {
                    st.conn = Some(c);
                    proof {
                        assert(splice(cl, st0.buffered_len as int, Seq::empty()) =~= cl);
                    }
                    let frame = handle_frame(buf, len, my_mac, STATIC_IP);
                    Effects { frame, reply: None }
                },
            }
        },
        None => {
            let frame = handle_frame(buf, len, my_mac, STATIC_IP);
            Effects { frame, reply: None }
        },
    }
}

/// A connection step never lets the client buffer's fill level pass its
/// capacity.
pub proof fn lemma_step_buffered_bound(b: Seq<u8>, len: int, c: Connection, pending: PendingOp, buffered: nat)
    requires
        buffered <= TCP_MAX_TRANSFER,
    ensures
        advance_spec(b, len, c, pending, buffered).buffered <= TCP_MAX_TRANSFER,
        advance_spec(b, len, c, pending, buffered).buffered == buffered || advance_spec(b, len, c, pending, buffered).buffered == 0
            || advance_spec(b, len, c, pending, buffered).buffered == buffered + advance_spec(b, len, c, pending, buffered).delivered.len(),
{
}

/// The frame a client request makes the service build.
#[derive(Debug)]
pub enum ClientFrame {
    Nothing,
    /// An ARP request for the peer's address.
    ArpRequest([u8; 4]),
    /// A segment on the active connection: sequence and acknowledgement
    /// numbers, flags, and how many bytes of the client's buffer it carries.
    Segment(u32, u32, u8, usize),
}

/// What a client request decided besides the state change: a frame to send
/// (its length; it was built at the start of the NIC buffer), a word to
/// send back to the client, and a transferred buffer grant to map.
#[derive(Debug)]
pub struct ClientEffects {
    pub frame: Option<usize>,
    pub reply: Option<u32>,
    pub map_slot: Option<u32>,
}

/// The result of one client request, as values.
pub struct ClientStep {
    pub st: NetState,
    pub frame: ClientFrame,
    pub reply: Option<u32>,
    pub map_slot: Option<u32>,
}

/// Little-endian bytes of `w`.
pub open spec fn le_bytes(w: u32) -> Seq<u8> {
    seq![(w % 256) as u8, ((w / 256) % 256) as u8, ((w / 0x10000) % 256) as u8, (w / 0x1000000) as u8]
}

/// How many bytes one send request for `asked` bytes puts on the wire.
pub open spec fn send_size(asked: u32) -> nat {
    let a = asked as nat;
    let a = if a < WINDOW { a } else { WINDOW as nat };
    let a = if a < TCP_MAX_TRANSFER { a } else { TCP_MAX_TRANSFER as nat };
    if a < MAX_SEGMENT_PAYLOAD { a } else { MAX_SEGMENT_PAYLOAD as nat }
}

/// The connection a connect request opens to `r`'s peer.
pub open spec fn connecting(r: RecvResult) -> Connection {
    Connection {
        peer_ip: choose|a: [u8; 4]| a@ == le_bytes(r.w1),
        peer_port: (r.w2 % 0x10000) as u16,
        peer_mac: [0u8, 0, 0, 0, 0, 0],
        state: ConnState::ArpPending,
        snd_nxt: INITIAL_SEQ,
        rcv_nxt: 0,
        attempts_left: MAX_ATTEMPTS,
    }
}

/// Whether the connection is already past the point where data can arrive.
pub open spec fn recv_finished(conn: Option<Connection>) -> bool {
    match conn {
        Some(c) => c.state == ConnState::LastAck || c.state == ConnState::FinWait2,
        None => true,
    }
}

/// How the service handles client request `r`.
pub open spec fn client_step(r: RecvResult, st: NetState) -> ClientStep {
    let quiet = ClientStep { st, frame: ClientFrame::Nothing, reply: None, map_slot: None };
    if r.w0 == TCP_OP_SET_BUFFER {
        ClientStep { map_slot: if r.transferred_slot != 0 { Some(r.transferred_slot) } else { None }, ..quiet }
    } else if r.w0 == TCP_OP_SET_REPLY {
        if r.transferred_slot != 0 {
            ClientStep { st: NetState { client_reply: r.transferred_slot, ..st }, ..quiet }
        } else {
            quiet
        }
    } else if st.client_reply == 0 {
        quiet
    } else if r.w0 == TCP_OP_CONNECT {
        if st.conn is Some || !st.client_buf_mapped {
            ClientStep { reply: Some(0), ..quiet }
        } else {
            let c = connecting(r);
            ClientStep {
                st: NetState { conn: Some(c), pending_op: PendingOp::Connect, ..st },
                frame: ClientFrame::ArpRequest(c.peer_ip),
                reply: None,
                map_slot: None,
            }
        }
    } else if r.w0 == TCP_OP_SEND {
        match st.conn {
            Some(c) => if c.state == ConnState::Established && st.client_buf_mapped {
                let n = send_size(r.w1);
                ClientStep {
                    st: NetState { conn: Some(Connection { snd_nxt: wadd(c.snd_nxt, n as u32), ..c }), ..st },
                    frame: ClientFrame::Segment(c.snd_nxt, c.rcv_nxt, FLAG_PSH | FLAG_ACK, n as usize),
                    reply: Some(n as u32),
                    map_slot: None,
                }
            } else {
                ClientStep { reply: Some(0), ..quiet }
            },
            None => ClientStep { reply: Some(0), ..quiet },
        }
    } else if r.w0 == TCP_OP_RECV {
        if st.buffered_len > 0 || recv_finished(st.conn) {
            ClientStep { st: NetState { buffered_len: 0, ..st }, reply: Some(st.buffered_len as u32), ..quiet }
        } else {
            ClientStep {
                st: NetState {
                    pending_op: PendingOp::Recv,
                    conn: match st.conn {
                        Some(c) => Some(Connection { attempts_left: MAX_ATTEMPTS, ..c }),
                        None => None,
                    },
                    ..st
                },
                ..quiet
            }
        }
    } else if r.w0 == TCP_OP_CLOSE {
        match st.conn {
            Some(c) => if c.state == ConnState::Established {
                ClientStep {
                    st: NetState {
                        conn: Some(Connection { snd_nxt: wadd(c.snd_nxt, 1), state: ConnState::FinWait1, attempts_left: MAX_ATTEMPTS, ..c }),
                        pending_op: PendingOp::Close,
                        ..st
                    },
                    frame: ClientFrame::Segment(c.snd_nxt, c.rcv_nxt, FLAG_FIN | FLAG_ACK, 0),
                    reply: None,
                    map_slot: None,
                }
            } else {
                ClientStep { st: NetState { conn: None, ..st }, reply: Some(1), ..quiet }
            },
            None => ClientStep { st: NetState { conn: None, ..st }, reply: Some(1), ..quiet },
        }
    } else {
        quiet
    }
}

/// Little-endian bytes of a word, as an array.
fn le_bytes_of(w: u32) -> (r: [u8; 4])
    ensures
        r@ == le_bytes(w),
{
    let r = [(w % 256) as u8, ((w / 256) % 256) as u8, ((w / 0x10000) % 256) as u8, (w / 0x1000000) as u8];
    assert(r@ =~= le_bytes(w));
    r
}

/// Handles one request from the external TCP client. A connect request
/// starts ARP resolution of the peer; a send request puts up to one
/// segment's worth of the client's buffer on the wire at once; receive and
/// close requests that cannot be answered yet are left pending on the
/// connection.
pub fn handle_client_message(
    r: RecvResult,
    my_mac: [u8; 6],
    st: &mut NetState,
    nic_buf: &mut [u8],
    client_buf: &[u8],
) -> (out: ClientEffects)
    requires
        old(nic_buf)@.len() >= NIC_MAX_FRAME,
        client_buf@.len() == TCP_MAX_TRANSFER,
        old(st).buffered_len <= TCP_MAX_TRANSFER,
    ensures
        ({
            let cs = client_step(r, *old(st));
            &&& *final(st) == cs.st
            &&& out.reply == cs.reply
            &&& out.map_slot == cs.map_slot
            &&& match cs.frame {
                ClientFrame::Nothing => out.frame is None && final(nic_buf)@ == old(nic_buf)@,
                ClientFrame::ArpRequest(ip) => out.frame == Some(MIN_FRAME_LEN) && final(nic_buf)@ == arp_request_frame(
                    old(nic_buf)@,
                    my_mac@,
                    STATIC_IP@,
                    ip@,
                ),
                ClientFrame::Segment(seq, ack, flags, n) => {
                    let c = old(st).conn->0;
                    &&& out.frame == Some(crate::net::proto::padded_len(54 + n) as usize)
                    &&& final(nic_buf)@ == segment_frame(
                        old(nic_buf)@,
                        my_mac@,
                        STATIC_IP@,
                        c.peer_mac@,
                        c.peer_ip@,
                        LOCAL_PORT,
                        c.peer_port,
                        seq,
                        ack,
                        flags,
                        WINDOW,
                        client_buf@.take(n as int),
                    )
                },
            }
        }),
        final(st).buffered_len <= TCP_MAX_TRANSFER,
{
    let none = ClientEffects { frame: None, reply: None, map_slot: None };
    if r.w0 == TCP_OP_SET_BUFFER {
        return ClientEffects { map_slot: if r.transferred_slot != 0 { Some(r.transferred_slot) } else { None }, ..none };
    }
    if r.w0 == TCP_OP_SET_REPLY {
        if r.transferred_slot != 0 {
            st.client_reply = r.transferred_slot;
        }
        return none;
    }
    if st.client_reply == 0 {
        return none;
    }
    if r.w0 == TCP_OP_CONNECT {
        if st.conn.is_some() || !st.client_buf_mapped {
            return ClientEffects { reply: Some(0), ..none };
        }
        let peer_ip = le_bytes_of(r.w1);
        let peer_port = (r.w2 % 0x10000) as u16;
        let n = build_arp_request(nic_buf, my_mac, STATIC_IP, peer_ip);
        proof {
            let a = choose|a: [u8; 4]| a@ == le_bytes(r.w1);
            assert(a@ == peer_ip@);
            assert(a == peer_ip);
        }
        st.conn = Some(
            Connection {
                peer_ip,
                peer_port,
                peer_mac: [0; 6],
                state: ConnState::ArpPending,
                snd_nxt: INITIAL_SEQ,
                rcv_nxt: 0,
                attempts_left: MAX_ATTEMPTS,
            },
        );
        st.pending_op = PendingOp::Connect;
        proof {
            let c = connecting(r);
            assert(st.conn->0.peer_ip == c.peer_ip);
            assert(st.conn->0.peer_mac == c.peer_mac);
            assert(st.conn->0 == c);
        }
        return ClientEffects { frame: Some(n), ..none };
    }
    if r.w0 == TCP_OP_SEND {
        match st.conn.take() {
            Some(c) => {
                if c.state == ConnState::Established && st.client_buf_mapped {
                    let mut want = r.w1 as usize;
                    if want > WINDOW as usize {
                        want = WINDOW as usize;
                    }
                    if want > TCP_MAX_TRANSFER {
                        want = TCP_MAX_TRANSFER;
                    }
                    if want > MAX_SEGMENT_PAYLOAD {
                        want = MAX_SEGMENT_PAYLOAD;
                    }
                    let seg_len = build_segment(
                        nic_buf,
                        my_mac,
                        STATIC_IP,
                        c.peer_mac,
                        c.peer_ip,
                        LOCAL_PORT,
                        c.peer_port,
                        c.snd_nxt,
                        c.rcv_nxt,
                        FLAG_PSH | FLAG_ACK,
                        WINDOW,
                        &client_buf[0..want],
                    );
                    assert(client_buf@.subrange(0, want as int) =~= client_buf@.take(want as int));
                    st.conn = Some(Connection { snd_nxt: c.snd_nxt.wrapping_add(want as u32), ..c });
                    return ClientEffects { frame: Some(seg_len), reply: Some(want as u32), map_slot: None };
                } else {
                    st.conn = Some(c);
                    return ClientEffects { reply: Some(0), ..none };
                }
            },
            None => {
                return ClientEffects { reply: Some(0), ..none };
            },
        }
    }
    if r.w0 == TCP_OP_RECV {
        let already_done = match &st.conn {
            Some(c) => c.state == ConnState::LastAck || c.state == ConnState::FinWait2,
            None => true,
        };
        if st.buffered_len > 0 || already_done {
            let n = st.buffered_len as u32;
            st.buffered_len = 0;
            return ClientEffects { reply: Some(n), ..none };
        }
        st.pending_op = PendingOp::Recv;
        match st.conn.take() {
            Some(c) => {
                st.conn = Some(Connection { attempts_left: MAX_ATTEMPTS, ..c });
            },
            None => {},
        }
        return none;
    }
    if r.w0 == TCP_OP_CLOSE {
        match st.conn.take() {
            Some(c) => {
                if c.state == ConnState::Established {
                    let empty: Vec<u8> = Vec::new();
                    let seg_len = build_segment(
                        nic_buf,
                        my_mac,
                        STATIC_IP,
                        c.peer_mac,
                        c.peer_ip,
                        LOCAL_PORT,
                        c.peer_port,
                        c.snd_nxt,
                        c.rcv_nxt,
                        FLAG_FIN | FLAG_ACK,
                        WINDOW,
                        empty.as_slice(),
                    );
                    assert(client_buf@.take(0) =~= empty@);
                    st.conn = Some(
                        Connection { snd_nxt: c.snd_nxt.wrapping_add(1), state: ConnState::FinWait1, attempts_left: MAX_ATTEMPTS, ..c },
                    );
                    st.pending_op = PendingOp::Close;
                    return ClientEffects { frame: Some(seg_len), ..none };
                }
                return ClientEffects { reply: Some(1), ..none };
            },
            None => {
                return ClientEffects { reply: Some(1), ..none };
            },
        }
    }
    none
}

/// Gives up on the pending request: the connection is dropped, buffered
/// data is discarded, and the request is answered the way it would be had
/// it failed (connect `0`, receive with whatever was buffered, close `1`).
pub fn fail_pending_op(st: &mut NetState) -> (reply: Option<u32>)
    ensures
        final(st).conn is None,
        final(st).pending_op == PendingOp::Idle,
        final(st).buffered_len == 0,
        final(st).client_reply == old(st).client_reply,
        final(st).client_buf_mapped == old(st).client_buf_mapped,
        reply == (match old(st).pending_op {
            PendingOp::Connect => Some(0u32),
            PendingOp::Recv => Some(old(st).buffered_len as u32),
            PendingOp::Close => Some(1u32),
            PendingOp::Idle => None,
        }),
{
    let op = st.pending_op;
    st.pending_op = PendingOp::Idle;
    let buffered = st.buffered_len as u32;
    st.buffered_len = 0;
    st.conn = None;
    match op {
        PendingOp::Connect => Some(0),
        PendingOp::Recv => Some(buffered),
        PendingOp::Close => Some(1),
        PendingOp::Idle => None,
    }
}

/// What one turn of the main loop does before polling.
#[derive(Clone, Copy, Debug, PartialEq, Eq, Structural)]
pub enum Tick {
    /// Go on polling.
    Poll,
    /// The pending request ran out of attempts and was failed: send the
    /// reply, if any, and start the next turn.
    Failed(Option<u32>),
}

/// Counts one main-loop turn against the pending request's attempts, and
/// fails the request once none are left.
pub fn tick(st: &mut NetState) -> (t: Tick)
    ensures
        old(st).pending_op == PendingOp::Idle || old(st).conn is None ==> t == Tick::Poll && *final(st) == *old(st),
        old(st).pending_op != PendingOp::Idle && old(st).conn is Some ==> {
            let c = old(st).conn->0;
            if c.attempts_left == 0 {
                &&& final(st).conn is None
                &&& final(st).pending_op == PendingOp::Idle
                &&& final(st).buffered_len == 0
                &&& t == Tick::Failed(match old(st).pending_op {
                    PendingOp::Connect => Some(0u32),
                    PendingOp::Recv => Some(old(st).buffered_len as u32),
                    _ => Some(1u32),
                })
            } else {
                &&& t == Tick::Poll
                &&& *final(st) == NetState { conn: Some(Connection { attempts_left: (c.attempts_left - 1) as u32, ..c }), ..*old(st) }
            }
        },
        final(st).client_reply == old(st).client_reply,
        final(st).client_buf_mapped == old(st).client_buf_mapped,
        final(st).buffered_len <= old(st).buffered_len,
{
    if st.pending_op == PendingOp::Idle {
        return Tick::Poll;
    }
    match st.conn.take() {
        Some(c) => {
            if c.attempts_left == 0 {
                st.conn = Some(c);
                let reply = fail_pending_op(st);
                return Tick::Failed(reply);
            }
            st.conn = Some(Connection { attempts_left: c.attempts_left - 1, ..c });
            Tick::Poll
        },
        None => Tick::Poll,
    }
}

/// The idle back-off after a turn in which neither the NIC nor the client
/// had anything: double the number of yields, up to `MAX_IDLE_YIELDS`.
pub fn next_idle_yields(idle_yields: u32) -> (r: u32)
    requires
        idle_yields <= MAX_IDLE_YIELDS,
    ensures
        r == (if idle_yields * 2 < MAX_IDLE_YIELDS { idle_yields * 2 } else { MAX_IDLE_YIELDS as int }),
{
    let d = idle_yields * 2;
    if d < MAX_IDLE_YIELDS { d } else { MAX_IDLE_YIELDS }
}

/// Records the outcome of mapping the client's buffer grant: only a
/// successful mapping marks the buffer usable.
pub fn client_buffer_mapped(st: &mut NetState, map_ok: bool)
    ensures
        *final(st) == (if map_ok { NetState { client_buf_mapped: true, ..*old(st) } } else { *old(st) }),
{
    if map_ok {
        st.client_buf_mapped = true;
    }
}

/// Every connect, send, receive or close request from a client whose reply
/// endpoint is known is either answered at once or left pending on the
/// connection (to be answered by a later frame or by `fail_pending_op`);
/// none is silently dropped.
pub proof fn lemma_client_request_answered_or_pending(r: RecvResult, st: NetState)
    requires
        st.client_reply != 0,
        r.w0 == TCP_OP_CONNECT || r.w0 == TCP_OP_SEND || r.w0 == TCP_OP_RECV || r.w0 == TCP_OP_CLOSE,
    ensures
        client_step(r, st).reply is Some || client_step(r, st).st.pending_op != PendingOp::Idle,
{
}

/// A send on an established connection advances the send sequence number by
/// exactly the number of bytes it reports sent, and reports that number to
/// the client.
pub proof fn lemma_send_advances_sequence(r: RecvResult, st: NetState)
    requires
        st.client_reply != 0,
        r.w0 == TCP_OP_SEND,
        st.client_buf_mapped,
        st.conn matches Some(c) && c.state == ConnState::Established,
    ensures
        ({
            let cs = client_step(r, st);
            let c = st.conn->0;
            &&& cs.reply == Some(send_size(r.w1) as u32)
            &&& cs.st.conn->0.snd_nxt == wadd(c.snd_nxt, send_size(r.w1) as u32)
            &&& send_size(r.w1) <= MAX_SEGMENT_PAYLOAD
        }),
{
}

/// Bounded FIFO (two entries) for client messages that arrive while the
/// service is waiting specifically for the NIC driver's reply. Two is the
/// protocol's true maximum: only a buffer grant and a reply endpoint are
/// ever sent back to back without a reply in between.
pub struct Stash {
    items: [Option<RecvResult>; 2],
    len: usize,
}

impl Stash {
    /// The queued messages, oldest first.
    pub closed spec fn view(&self) -> Seq<RecvResult> {
        Seq::new(self.len as nat, |i: int| self.items@[i]->0)
    }

    /// The entries below `len` are filled, those above empty.
    pub closed spec fn wf(&self) -> bool {
        &&& self.len <= 2
        &&& forall|i: int| 0 <= i < 2 ==> (#[trigger] self.items@[i] is Some <==> i < self.len)
    }

    /// An empty queue.
    pub fn new() -> (r: Self)
        ensures
            r.wf(),
            r.view() == Seq::<RecvResult>::empty(),
    {
        let r = Stash { items: [None, None], len: 0 };
        assert(r.view() =~= Seq::<RecvResult>::empty());
        r
    }

    /// Appends `r`, or drops it if the queue is already full.
    pub fn push(&mut self, r: RecvResult)
        requires
            old(self).wf(),
        ensures
            final(self).wf(),
            final(self).view() == (if old(self).view().len() < 2 { old(self).view().push(r) } else { old(self).view() }),
    {
        if self.len < 2 {
            let ghost v = self.view();
            self.items[self.len] = Some(r);
            self.len = self.len + 1;
            assert(self.view() =~= v.push(r));
        }
    }

    /// Removes and returns the oldest message, if any.
    pub fn pop_front(&mut self) -> (r: Option<RecvResult>)
        requires
            old(self).wf(),
        ensures
            final(self).wf(),
            old(self).view().len() == 0 ==> r is None && final(self).view() == old(self).view(),
            old(self).view().len() > 0 ==> r == Some(old(self).view()[0]) && final(self).view() == old(self).view().drop_first(),
    {
        let first = self.items[0];
        let r = match first {
            Some(x) => x,
            None => {
                return None;
            },
        };
        let ghost v = self.view();
        self.items[0] = None;
        let mut i: usize = 1;
        while i < self.len
            invariant
                1 <= i <= self.len <= 2,
                self.len == v.len(),
                forall|j: int| 0 <= j < i - 1 ==> #[trigger] self.items@[j] == Some(v[j + 1]),
                self.items@[i - 1] is None,
                forall|j: int| i <= j < 2 ==> (#[trigger] self.items@[j] is Some <==> j < self.len),
                forall|j: int| i <= j < self.len ==> #[trigger] self.items@[j] == Some(v[j]),
            decreases self.len - i,
        {
            let x = self.items[i];
            self.items[i - 1] = x;
            self.items[i] = None;
            i = i + 1;
        }
        self.len = self.len - 1;
        assert(self.view() =~= v.drop_first());
        Some(r)
    }
}

/// A FIN is honoured on an established connection, also when it rides on
/// in-order data: a segment without RST, carrying FIN (flag 0x01), whose
/// sequence number is the next one expected and whose payload fits the
/// client's buffer, hands the whole payload over, moves the connection to
/// `LastAck`, and is answered by one FIN|ACK (flags 0x11) at our next
/// sequence number acknowledging the sequence number plus the payload
/// length plus one (modulo 2^32), after which that is the receive point.
pub proof fn lemma_fin_with_data_closes(c: Connection, seg: SegmentModel, pending: PendingOp, buffered: nat)
    requires
        c.state == ConnState::Established,
        seg.flags & 0x04u8 == 0,
        seg.flags & 0x01u8 != 0,
        seg.seq == c.rcv_nxt,
        buffered + seg.payload.len() <= TCP_MAX_TRANSFER,
    ensures
        ({
            let st = established_step(c, seg, pending, buffered);
            let ack = ((seg.seq + seg.payload.len() + 1) % 0x1_0000_0000) as u32;
            &&& st.outcome == Outcome::Handled
            &&& st.conn.state == ConnState::LastAck
            &&& st.delivered == seg.payload
            &&& st.sent == Some((c.snd_nxt, ack, 0x11u8))
            &&& st.conn.rcv_nxt == ack
        }),
{
    let n = seg.payload.len();
    let data = accepted(c, seg, buffered);
    if n > 0 {
        assert(data =~= seg.payload);
    }
    assert(data.len() == n);
    assert(n <= TCP_MAX_TRANSFER);
    assert((FLAG_FIN | FLAG_ACK) == 0x11u8) by (bit_vector);
    assert(FLAG_FIN == 0x01u8 && FLAG_RST == 0x04u8);
}

/// In-order data is taken and acknowledged: on an established connection,
/// a segment without RST or FIN whose sequence number is the next one
/// expected and whose non-empty payload fits the client's buffer hands the
/// whole payload over and is answered by one ACK (flags 0x10) at our next
/// sequence number acknowledging the sequence number plus the payload
/// length (modulo 2^32); the connection stays established. A segment that
/// is out of order and carries no FIN hands nothing over and is not
/// answered.
pub proof fn lemma_in_order_data_acked(c: Connection, seg: SegmentModel, pending: PendingOp, buffered: nat)
    requires
        c.state == ConnState::Established,
        seg.flags & 0x04u8 == 0,
        seg.flags & 0x01u8 == 0,
        buffered + seg.payload.len() <= TCP_MAX_TRANSFER,
    ensures
        ({
            let st = established_step(c, seg, pending, buffered);
            let ack = ((seg.seq + seg.payload.len()) % 0x1_0000_0000) as u32;
            &&& seg.seq == c.rcv_nxt && seg.payload.len() > 0 ==> {
                &&& st.outcome == Outcome::Handled
                &&& st.conn.state == ConnState::Established
                &&& st.delivered == seg.payload
                &&& st.sent == Some((c.snd_nxt, ack, 0x10u8))
                &&& st.conn.rcv_nxt == ack
            }
            &&& seg.seq != c.rcv_nxt ==> st.delivered.len() == 0 && st.sent is None && st.conn == c
        }),
{
    let data = accepted(c, seg, buffered);
    if seg.seq == c.rcv_nxt && seg.payload.len() > 0 {
        assert(data =~= seg.payload);
    }
    assert(FLAG_FIN == 0x01u8 && FLAG_RST == 0x04u8 && FLAG_ACK == 0x10u8);
}

} // verus!

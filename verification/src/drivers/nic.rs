//! The RTL8139 network driver's decisions: which receive-ring entries hold
//! a frame and where the next entry starts, which frames may be
//! transmitted, and the driver service's request handling (one client,
//! which hands over a shared frame buffer and a reply slot, then sends
//! frames and asks for received ones). The caller does the port I/O and
//! the copies each step asks for.
use vstd::prelude::*;
use crate::bytes::le32_at;
use crate::ipc::{msg, Message, RecvResult, KERNEL_TASK_ID};
use crate::net::conn::NIC_MAX_FRAME;

verus! {

/// Size of the receive ring proper; the card writes past it into a
/// margin rather than splitting a frame.
pub const RX_RING_WRAP: u32 = 8192;
/// Receive-ring entries walked per interrupt at most.
pub const MAX_PACKETS_PER_DRAIN: u32 = 64;
/// Receive-OK bit of the interrupt status register.
pub const ISR_ROK: u16 = 1;

/// Driver protocol operations.
pub const NIC_OP_SET_BUFFER: u32 = 1;
pub const NIC_OP_SET_REPLY: u32 = 2;
pub const NIC_OP_GET_MAC: u32 = 3;
pub const NIC_OP_SEND: u32 = 4;
pub const NIC_OP_RECV: u32 = 5;
pub const NIC_OP_TRY_RECV: u32 = 6;

/// Whether an interrupt status says a frame was received.
pub fn irq_has_rx(isr: u16) -> (r: bool)
    ensures
        r == (isr % 2 == 1),
{
    assert(isr & 1 == isr % 2) by (bit_vector);
    isr & ISR_ROK != 0
}

/// The frame length a receive-ring entry header gives, if the entry is
/// good: its status has the receive-OK bit and its CRC-inclusive length
/// is between 4 and a full frame plus CRC. The 4 CRC bytes are dropped.
pub open spec fn rx_frame_len_spec(status: u16, length: u16) -> Option<nat> {
    if status % 2 == 1 && 4 <= length <= NIC_MAX_FRAME + 4 {
        Some((length - 4) as nat)
    } else {
        None
    }
}

/// See `rx_frame_len_spec`.
pub fn rx_frame_len(status: u16, length: u16) -> (r: Option<usize>)
    ensures
        r matches Some(n) ==> n <= NIC_MAX_FRAME,
        match rx_frame_len_spec(status, length) {
            Some(n) => r == Some(n as usize),
            None => r is None,
        },
{
    assert(status & 1 == status % 2) by (bit_vector);
    if status & 1 != 0 && 4 <= length && (length as usize) <= NIC_MAX_FRAME + 4 {
        Some(length as usize - 4)
    } else {
        None
    }
}

/// Where the receive-ring entry after one at `cur_rx` with CRC-inclusive
/// length `length` starts: past its 4-byte header and data, rounded up to
/// a multiple of 4, folded back by the ring size once it passes the ring's
/// end (a 16-bit offset).
pub open spec fn rx_next_offset_spec(cur_rx: u16, length: u16) -> u16 {
    let next = cur_rx + (length + 7) / 4 * 4;
    let folded = if next > RX_RING_WRAP { next - RX_RING_WRAP } else { next };
    (folded % 0x10000) as u16
}

/// See `rx_next_offset_spec`.
pub fn rx_next_offset(cur_rx: u16, length: u16) -> (r: u16)
    ensures
        r == rx_next_offset_spec(cur_rx, length),
{
    let advance: u32 = (length as u32 + 7) / 4 * 4;
    let mut next: u32 = cur_rx as u32 + advance;
    if next > RX_RING_WRAP {
        next = next - RX_RING_WRAP;
    }
    (next % 0x10000) as u16
}

/// The value for the card's read-pointer register, which sits 16 bytes
/// behind the driver's own offset (16-bit wrap-around).
pub fn capr_value(cur_rx: u16) -> (r: u16)
    ensures
        r == (cur_rx + 0x10000 - 16) % 0x10000,
{
    cur_rx.wrapping_sub(16)
}

/// Whether a frame of `len` bytes may be transmitted: non-empty, at most a
/// full frame.
pub fn tx_frame_ok(len: usize) -> (r: bool)
    ensures
        r == (0 < len <= NIC_MAX_FRAME),
{
    0 < len && len <= NIC_MAX_FRAME
}

/// What the driver does for one message.
#[derive(Clone, Copy, Debug, PartialEq, Eq, Structural)]
pub enum NicAction {
    /// Nothing.
    Idle,
    /// An interrupt: acknowledge it and, if it reports a received frame,
    /// drain the receive ring and hand the last good frame's length to
    /// `on_frame`.
    ServiceInterrupt,
    /// Send this reply.
    Reply(Message),
    /// Transmit the first `len` bytes of the client buffer, then send
    /// `tx_reply` of whether that worked.
    Transmit(usize),
    /// Copy the first `len` bytes of the last received frame into the
    /// client buffer, then send this reply.
    Deliver(usize, Message),
}

/// The driver service's state: whether the client's frame buffer is
/// mapped, where replies go (0: nowhere yet), whether a blocking receive
/// is waiting for a frame, and the length of the received frame not yet
/// handed over (0: none).
#[derive(Clone, Copy, Debug, PartialEq, Eq, Structural)]
pub struct NicServer {
    pub client_buf_mapped: bool,
    pub client_reply: u32,
    pub recv_armed: bool,
    pub last_rx_len: usize,
}

/// The reply that hands over the held frame (`len` bytes).
pub open spec fn deliver_msg(reply: u32, len: usize) -> Message {
    msg(reply, len as u32, 0, 0, 0)
}

/// The MAC address as the two reply words: bytes 0..4, then 4..6 (low
/// half), little-endian.
pub open spec fn mac_words(mac: Seq<u8>) -> (u32, u32) {
    (le32_at(mac, 0) as u32, le32_at(seq![mac[4], mac[5], 0u8, 0u8], 0) as u32)
}

/// A receive request (blocking, or with `try_`): nothing without a reply
/// slot; 0 without a mapped buffer; the held frame if there is one (and
/// then none is held); else a blocking request waits for the next frame
/// and a non-blocking one is answered 0.
pub open spec fn recv_step(s: NicServer, try_: bool) -> (NicServer, NicAction) {
    if s.client_reply == 0 {
        (s, NicAction::Idle)
    } else if !s.client_buf_mapped {
        (s, NicAction::Reply(msg(s.client_reply, 0, 0, 0, 0)))
    } else if s.last_rx_len > 0 {
        (NicServer { last_rx_len: 0, ..s }, NicAction::Deliver(s.last_rx_len, deliver_msg(s.client_reply, s.last_rx_len)))
    } else if try_ {
        (s, NicAction::Reply(msg(s.client_reply, 0, 0, 0, 0)))
    } else {
        (NicServer { recv_armed: true, ..s }, NicAction::Idle)
    }
}

/// What the driver does with message `r` (`map_ok`: the buffer grant of a
/// set-buffer request was mapped; `mac`: the card's address).
pub open spec fn nic_step(s: NicServer, r: RecvResult, map_ok: bool, mac: Seq<u8>) -> (NicServer, NicAction) {
    if r.sender == KERNEL_TASK_ID {
        (s, NicAction::ServiceInterrupt)
    } else if r.w0 == NIC_OP_SET_BUFFER {
        (if r.transferred_slot != 0 && map_ok { NicServer { client_buf_mapped: true, ..s } } else { s }, NicAction::Idle)
    } else if r.w0 == NIC_OP_SET_REPLY {
        (if r.transferred_slot != 0 { NicServer { client_reply: r.transferred_slot, ..s } } else { s }, NicAction::Idle)
    } else if r.w0 == NIC_OP_GET_MAC {
        if s.client_reply == 0 {
            (s, NicAction::Idle)
        } else {
            (s, NicAction::Reply(msg(s.client_reply, mac_words(mac).0, mac_words(mac).1, 0, 0)))
        }
    } else if r.w0 == NIC_OP_SEND {
        if s.client_reply == 0 {
            (s, NicAction::Idle)
        } else if !s.client_buf_mapped {
            (s, NicAction::Reply(msg(s.client_reply, 0, 0, 0, 0)))
        } else {
            (s, NicAction::Transmit(if r.w1 < NIC_MAX_FRAME { r.w1 as usize } else { NIC_MAX_FRAME }))
        }
    } else if r.w0 == NIC_OP_RECV {
        recv_step(s, false)
    } else if r.w0 == NIC_OP_TRY_RECV {
        recv_step(s, true)
    } else {
        (s, NicAction::Idle)
    }
}

/// What the driver does when the ring drain found a good frame of `len`
/// bytes: it is held, and handed straight over if a blocking receive is
/// waiting (and the client can take it).
pub open spec fn frame_step(s: NicServer, len: usize) -> (NicServer, NicAction) {
    if s.recv_armed && s.client_reply != 0 && s.client_buf_mapped {
        (NicServer { recv_armed: false, last_rx_len: 0, ..s }, NicAction::Deliver(len, deliver_msg(s.client_reply, len)))
    } else {
        (NicServer { last_rx_len: len, ..s }, NicAction::Idle)
    }
}

impl NicServer {
    /// A held frame is never longer than a full frame.
    pub open spec fn wf(self) -> bool {
        self.last_rx_len <= NIC_MAX_FRAME
    }

    /// No client yet: no buffer, no reply slot, nothing held or waiting.
    pub fn new() -> (r: Self)
        ensures
            r.wf(),
            r == (NicServer { client_buf_mapped: false, client_reply: 0, recv_armed: false, last_rx_len: 0 }),
    {
        NicServer { client_buf_mapped: false, client_reply: 0, recv_armed: false, last_rx_len: 0 }
    }

    /// Whether `r` hands over a buffer grant to be mapped before `handle`.
    pub fn needs_mapping(r: &RecvResult) -> (b: bool)
        ensures
            b == (r.sender != KERNEL_TASK_ID && r.w0 == NIC_OP_SET_BUFFER && r.transferred_slot != 0),
    {
        r.sender != KERNEL_TASK_ID && r.w0 == NIC_OP_SET_BUFFER && r.transferred_slot != 0
    }

    fn recv(&mut self, try_: bool) -> (a: NicAction)
        requires
            old(self).wf(),
        ensures
            final(self).wf(),
            (*final(self), a) == recv_step(*old(self), try_),
    {
        if self.client_reply == 0 {
            NicAction::Idle
        } else if !self.client_buf_mapped {
            NicAction::Reply(Message { dest_slot: self.client_reply, w0: 0, w1: 0, w2: 0, transfer_slot: 0 })
        } else if self.last_rx_len > 0 {
            let len = self.last_rx_len;
            self.last_rx_len = 0;
            NicAction::Deliver(len, Message { dest_slot: self.client_reply, w0: len as u32, w1: 0, w2: 0, transfer_slot: 0 })
        } else if try_ {
            NicAction::Reply(Message { dest_slot: self.client_reply, w0: 0, w1: 0, w2: 0, transfer_slot: 0 })
        } else {
            self.recv_armed = true;
            NicAction::Idle
        }
    }

    /// Handles message `r` (see `nic_step`).
    pub fn handle(&mut self, r: &RecvResult, map_ok: bool, mac: &[u8; 6]) -> (a: NicAction)
        requires
            old(self).wf(),
        ensures
            final(self).wf(),
            (*final(self), a) == nic_step(*old(self), *r, map_ok, mac@),
    {
        if r.sender == KERNEL_TASK_ID {
            NicAction::ServiceInterrupt
        } else if r.w0 == NIC_OP_SET_BUFFER {
            if r.transferred_slot != 0 && map_ok {
                self.client_buf_mapped = true;
            }
            NicAction::Idle
        } else if r.w0 == NIC_OP_SET_REPLY {
            if r.transferred_slot != 0 {
                self.client_reply = r.transferred_slot;
            }
            NicAction::Idle
        } else if r.w0 == NIC_OP_GET_MAC {
            if self.client_reply == 0 {
                return NicAction::Idle;
            }
            let w0: u32 = mac[0] as u32 + mac[1] as u32 * 0x100 + mac[2] as u32 * 0x10000 + mac[3] as u32 * 0x1000000;
            let w1: u32 = mac[4] as u32 + mac[5] as u32 * 0x100;
            proof {
                let t = seq![mac@[4], mac@[5], 0u8, 0u8];
                assert(t[0] == mac@[4] && t[1] == mac@[5] && t[2] == 0 && t[3] == 0);
            }
            NicAction::Reply(Message { dest_slot: self.client_reply, w0, w1, w2: 0, transfer_slot: 0 })
        } else if r.w0 == NIC_OP_SEND {
            if self.client_reply == 0 {
                NicAction::Idle
            } else if !self.client_buf_mapped {
                NicAction::Reply(Message { dest_slot: self.client_reply, w0: 0, w1: 0, w2: 0, transfer_slot: 0 })
            } else {
                NicAction::Transmit(if (r.w1 as usize) < NIC_MAX_FRAME { r.w1 as usize } else { NIC_MAX_FRAME })
            }
        } else if r.w0 == NIC_OP_RECV {
            self.recv(false)
        } else if r.w0 == NIC_OP_TRY_RECV {
            self.recv(true)
        } else {
            NicAction::Idle
        }
    }

    /// The ring drain found a good frame of `len` bytes (see `frame_step`).
    pub fn on_frame(&mut self, len: usize) -> (a: NicAction)
        requires
            old(self).wf(),
            len <= NIC_MAX_FRAME,
        ensures
            final(self).wf(),
            (*final(self), a) == frame_step(*old(self), len),
    {
        if self.recv_armed && self.client_reply != 0 && self.client_buf_mapped {
            self.recv_armed = false;
            self.last_rx_len = 0;
            NicAction::Deliver(len, Message { dest_slot: self.client_reply, w0: len as u32, w1: 0, w2: 0, transfer_slot: 0 })
        } else {
            self.last_rx_len = len;
            NicAction::Idle
        }
    }

    /// The reply to a transmit request: 1 if the frame went out, else 0.
    pub fn tx_reply(&self, ok: bool) -> (m: Message)
        ensures
            m == msg(self.client_reply, if ok { 1 } else { 0 }, 0, 0, 0),
    {
        Message { dest_slot: self.client_reply, w0: if ok { 1 } else { 0 }, w1: 0, w2: 0, transfer_slot: 0 }
    }
}

/// A received frame is handed to a ready client exactly once: if a
/// blocking receive is waiting it goes out at once; otherwise it is held
/// and the next receive request (blocking or not) gets it, after which a
/// further receive request gets no frame.
pub proof fn lemma_frame_delivered_once(s: NicServer, len: usize, r1: RecvResult, r2: RecvResult, map_ok: bool, mac: Seq<u8>)
    requires
        s.wf(),
        0 < len <= NIC_MAX_FRAME,
        s.client_reply != 0,
        s.client_buf_mapped,
        r1.sender != KERNEL_TASK_ID && (r1.w0 == NIC_OP_RECV || r1.w0 == NIC_OP_TRY_RECV),
        r2.sender != KERNEL_TASK_ID && (r2.w0 == NIC_OP_RECV || r2.w0 == NIC_OP_TRY_RECV),
    ensures
        ({
            let (s1, a1) = frame_step(s, len);
            let (s2, a2) = nic_step(s1, r1, map_ok, mac);
            let (_, a3) = nic_step(s2, r2, map_ok, mac);
            &&& s.recv_armed ==> a1 == NicAction::Deliver(len, deliver_msg(s.client_reply, len)) && !(a2 is Deliver)
            &&& !s.recv_armed ==> a1 == NicAction::Idle && a2 == NicAction::Deliver(len, deliver_msg(s.client_reply, len))
                && !(a3 is Deliver)
        }),
{
}

} // verus!

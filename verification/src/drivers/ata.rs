//! The ATA PIO disk driver's decisions: how an LBA28 sector address is
//! spread over the drive's address registers, which status values let a
//! transfer go on, how a sector's bytes pair up into the 16-bit data words
//! the drive moves, and the storage service's request handling (one
//! client, which hands over a shared sector buffer and a reply slot, then
//! reads and writes sectors through it). The caller does the port I/O.
use vstd::prelude::*;
use crate::ipc::{
    msg, Message, RecvResult, STORAGE_OP_READ_BLOCK, STORAGE_OP_SET_BUFFER, STORAGE_OP_SET_REPLY,
    STORAGE_OP_WRITE_BLOCK,
};

verus! {

pub const STATUS_ERR: u8 = 1;
pub const STATUS_DRQ: u8 = 8;
pub const STATUS_DF: u8 = 32;
pub const STATUS_BSY: u8 = 128;
/// Read-sectors and write-sectors commands.
pub const CMD_READ_SECTORS: u8 = 0x20;
pub const CMD_WRITE_SECTORS: u8 = 0x30;

/// The drive/head, LBA-low, LBA-mid and LBA-high register values for
/// sector `lba` on the master drive in LBA mode: bits 24..28 of the
/// address go in the low nibble of drive/head (whose top nibble is 0xE),
/// the lower three bytes in the other three registers. Bits above 27 are
/// not sent.
pub open spec fn lba28_registers_spec(lba: u32) -> (u8, u8, u8, u8) {
    (
        (0xE0 + (lba / 0x1000000) % 16) as u8,
        (lba % 0x100) as u8,
        ((lba / 0x100) % 0x100) as u8,
        ((lba / 0x10000) % 0x100) as u8,
    )
}

/// See `lba28_registers_spec`.
pub fn lba28_registers(lba: u32) -> (r: (u8, u8, u8, u8))
    ensures
        r == lba28_registers_spec(lba),
{
    (
        (0xE0 + (lba / 0x1000000) % 16) as u8,
        (lba % 0x100) as u8,
        ((lba / 0x100) % 0x100) as u8,
        ((lba / 0x10000) % 0x100) as u8,
    )
}

/// Whether bit `bit` (a power of two below 256) is set in `status`.
pub open spec fn has_bit(status: u8, bit: u8) -> bool {
    (status / bit) % 2 == 1
}

/// The drive is still busy.
pub fn busy(status: u8) -> (r: bool)
    ensures
        r == has_bit(status, STATUS_BSY),
{
    assert((status & 128 != 0) == ((status / 128) % 2 == 1)) by (bit_vector);
    status & STATUS_BSY != 0
}

/// After a read command: the sector can be taken only with no error and
/// data requested.
pub fn read_ready(status: u8) -> (r: bool)
    ensures
        r == (!has_bit(status, STATUS_ERR) && has_bit(status, STATUS_DRQ)),
{
    assert((status & 1 != 0) == ((status / 1) % 2 == 1)) by (bit_vector);
    assert((status & 8 != 0) == ((status / 8) % 2 == 1)) by (bit_vector);
    status & STATUS_ERR == 0 && status & STATUS_DRQ != 0
}

/// Around a write: it goes on only with neither an error nor a drive
/// fault.
pub fn write_ok(status: u8) -> (r: bool)
    ensures
        r == (!has_bit(status, STATUS_ERR) && !has_bit(status, STATUS_DF)),
{
    assert((status & 1 != 0) == ((status / 1) % 2 == 1)) by (bit_vector);
    assert((status & 32 != 0) == ((status / 32) % 2 == 1)) by (bit_vector);
    status & STATUS_ERR == 0 && status & STATUS_DF == 0
}

/// The drive takes the next data word: not busy and requesting data.
pub fn word_wanted(status: u8) -> (r: bool)
    ensures
        r == (!has_bit(status, STATUS_BSY) && has_bit(status, STATUS_DRQ)),
{
    assert((status & 128 != 0) == ((status / 128) % 2 == 1)) by (bit_vector);
    assert((status & 8 != 0) == ((status / 8) % 2 == 1)) by (bit_vector);
    status & STATUS_BSY == 0 && status & STATUS_DRQ != 0
}

/// Data word `i` of a sector: bytes `2i` (low) and `2i + 1` (high).
pub fn sector_word(buf: &[u8; 512], i: usize) -> (w: u16)
    requires
        i < 256,
    ensures
        w == buf@[2 * i as int] + buf@[2 * i as int + 1] * 256,
{
    buf[2 * i] as u16 + buf[2 * i + 1] as u16 * 256
}

/// Stores data word `w` as bytes `2i` (low) and `2i + 1` (high) of a
/// sector, leaving the rest alone.
pub fn put_sector_word(buf: &mut [u8; 512], i: usize, w: u16)
    requires
        i < 256,
    ensures
        final(buf)@ == old(buf)@.update(2 * i as int, (w % 256) as u8).update(2 * i as int + 1, (w / 256) as u8),
{
    buf[2 * i] = (w % 256) as u8;
    buf[2 * i + 1] = (w / 256) as u8;
}

/// What the storage service does for one request.
#[derive(Clone, Copy, Debug, PartialEq, Eq, Structural)]
pub enum StorageAction {
    /// Nothing.
    Idle,
    /// Read this sector into the shared buffer, then send `io_reply` of
    /// whether that worked.
    Read(u32),
    /// Write the shared buffer to this sector, then send `io_reply` of
    /// whether that worked.
    Write(u32),
    /// Send this reply.
    Reply(Message),
}

/// The storage service's state: whether the client's sector buffer is
/// mapped, and where replies go (0: nowhere yet).
#[derive(Clone, Copy, Debug, PartialEq, Eq, Structural)]
pub struct StorageServer {
    pub buf_mapped: bool,
    pub reply_slot: u32,
}

/// What the storage service does with request `r` (`map_ok`: the buffer
/// grant of a set-buffer request was mapped). A transfer is ignored until
/// a reply slot is set, refused with 0 until a buffer is mapped, and
/// otherwise performed on the sector in `w1`.
pub open spec fn storage_step(s: StorageServer, r: RecvResult, map_ok: bool) -> (StorageServer, StorageAction) {
    if r.w0 == STORAGE_OP_SET_BUFFER {
        (if r.transferred_slot != 0 && map_ok { StorageServer { buf_mapped: true, ..s } } else { s }, StorageAction::Idle)
    } else if r.w0 == STORAGE_OP_SET_REPLY {
        (if r.transferred_slot != 0 { StorageServer { reply_slot: r.transferred_slot, ..s } } else { s }, StorageAction::Idle)
    } else if r.w0 == STORAGE_OP_READ_BLOCK || r.w0 == STORAGE_OP_WRITE_BLOCK {
        if s.reply_slot == 0 {
            (s, StorageAction::Idle)
        } else if !s.buf_mapped {
            (s, StorageAction::Reply(msg(s.reply_slot, 0, 0, 0, 0)))
        } else if r.w0 == STORAGE_OP_READ_BLOCK {
            (s, StorageAction::Read(r.w1))
        } else {
            (s, StorageAction::Write(r.w1))
        }
    } else {
        (s, StorageAction::Idle)
    }
}

impl StorageServer {
    /// No client yet: no buffer, no reply slot.
    pub fn new() -> (r: Self)
        ensures
            !r.buf_mapped,
            r.reply_slot == 0,
    {
        StorageServer { buf_mapped: false, reply_slot: 0 }
    }

    /// Whether `r` hands over a buffer grant to be mapped before `handle`.
    pub fn needs_mapping(r: &RecvResult) -> (b: bool)
        ensures
            b == (r.w0 == STORAGE_OP_SET_BUFFER && r.transferred_slot != 0),
    {
        r.w0 == STORAGE_OP_SET_BUFFER && r.transferred_slot != 0
    }

    /// Handles request `r` (see `storage_step`).
    pub fn handle(&mut self, r: &RecvResult, map_ok: bool) -> (a: StorageAction)
        ensures
            (*final(self), a) == storage_step(*old(self), *r, map_ok),
    {
        if r.w0 == STORAGE_OP_SET_BUFFER {
            if r.transferred_slot != 0 && map_ok {
                self.buf_mapped = true;
            }
            StorageAction::Idle
        } else if r.w0 == STORAGE_OP_SET_REPLY {
            if r.transferred_slot != 0 {
                self.reply_slot = r.transferred_slot;
            }
            StorageAction::Idle
        } else if r.w0 == STORAGE_OP_READ_BLOCK || r.w0 == STORAGE_OP_WRITE_BLOCK {
            if self.reply_slot == 0 {
                StorageAction::Idle
            } else if !self.buf_mapped {
                StorageAction::Reply(Message { dest_slot: self.reply_slot, w0: 0, w1: 0, w2: 0, transfer_slot: 0 })
            } else if r.w0 == STORAGE_OP_READ_BLOCK {
                StorageAction::Read(r.w1)
            } else {
                StorageAction::Write(r.w1)
            }
        } else {
            StorageAction::Idle
        }
    }

    /// The reply to a sector transfer: 1 if it worked, else 0.
    pub fn io_reply(&self, ok: bool) -> (m: Message)
        requires
            self.reply_slot != 0,
        ensures
            m == msg(self.reply_slot, if ok { 1 } else { 0 }, 0, 0, 0),
    {
        Message { dest_slot: self.reply_slot, w0: if ok { 1 } else { 0 }, w1: 0, w2: 0, transfer_slot: 0 }
    }
}

/// A transfer is performed only for a client that set both a reply slot
/// and a mapped buffer, and every other request is answered at most with
/// a refusal: whatever the state and request, a `Read` or `Write` comes
/// only from a server with a reply slot and a mapped buffer, and a
/// `Reply` only from one with a reply slot and no buffer, and carries 0.
pub proof fn lemma_transfers_need_a_connected_client(s: StorageServer, r: RecvResult, map_ok: bool)
    ensures
        ({
            let (s2, a) = storage_step(s, r, map_ok);
            &&& (a is Read || a is Write) ==> s.reply_slot != 0 && s.buf_mapped && s2 == s
            &&& a matches StorageAction::Reply(m) ==> s.reply_slot != 0 && !s.buf_mapped && m == msg(s.reply_slot, 0, 0, 0, 0)
        }),
{
}

} // verus!

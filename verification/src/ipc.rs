//! The userland side of pCern's IPC protocols: the wire encoding of every
//! request a client sends to the name service, the storage service, the
//! filesystem service and the console, and the meaning of their replies.
//!
//! A message is three words plus an optional capability to transfer. The
//! functions here compute *what* is sent and *where* the reply is awaited
//! (an `Exchange`); performing the send and receive system calls is left to
//! the caller, who hands a received reply back to the matching decoder.
use vstd::prelude::*;
use crate::bytes::le32_at;

verus! {

/// Capability slot every task is given for the name service.
pub const NAMESERVICE_SLOT: u32 = 1;
/// Sender id the kernel reports for forwarded interrupts.
pub const KERNEL_TASK_ID: u32 = 0;

pub const NS_OP_REGISTER: u32 = 1;
pub const NS_OP_LOOKUP: u32 = 2;

pub const STORAGE_OP_SET_BUFFER: u32 = 1;
pub const STORAGE_OP_SET_REPLY: u32 = 2;
pub const STORAGE_OP_READ_BLOCK: u32 = 3;
pub const STORAGE_OP_WRITE_BLOCK: u32 = 4;
pub const STORAGE_SECTOR_SIZE: usize = 512;

pub const FS_OP_SET_BUFFER: u32 = 1;
pub const FS_OP_SET_REPLY: u32 = 2;
pub const FS_OP_OPEN_NAME1: u32 = 3;
pub const FS_OP_OPEN_NAME2: u32 = 4;
pub const FS_OP_READ: u32 = 5;
pub const FS_OP_WRITE: u32 = 6;
pub const FS_OP_TRUNCATE: u32 = 7;

pub const CONSOLE_OP_SET_BUFFER: u32 = 1;
pub const CONSOLE_OP_SET_READER: u32 = 2;
pub const CONSOLE_OP_READ_LINE: u32 = 3;
pub const CONSOLE_OP_SET_MODE: u32 = 4;
pub const CONSOLE_OP_READ_KEY: u32 = 5;
/// Bytes typed before Enter beyond this many are dropped.
pub const CONSOLE_LINE_MAX: usize = 256;
/// The console's "print one character" operation.
pub const OP_PUTCHAR: u32 = 0;

/// One outgoing message: the destination capability slot, the three
/// message words, and a capability slot to transfer (`0` = none).
#[derive(Clone, Copy, Debug, PartialEq, Eq, Structural)]
pub struct Message {
    pub dest_slot: u32,
    pub w0: u32,
    pub w1: u32,
    pub w2: u32,
    pub transfer_slot: u32,
}

/// A received message: the kernel-attested sender id, the three words, and
/// the slot a transferred capability was installed in (`0` = none).
#[derive(Clone, Copy, Debug, PartialEq, Eq, Structural)]
pub struct RecvResult {
    pub sender: u32,
    pub w0: u32,
    pub w1: u32,
    pub w2: u32,
    pub transferred_slot: u32,
}

/// One protocol exchange: the messages to send, in order, then the slot to
/// receive the reply on (`None` when no reply comes).
pub struct Exchange {
    pub sends: Vec<Message>,
    pub reply_on: Option<u32>,
}

/// The message `(dest, w0, w1, w2, transfer)`.
pub open spec fn msg(dest: u32, w0: u32, w1: u32, w2: u32, transfer: u32) -> Message {
    Message { dest_slot: dest, w0, w1, w2, transfer_slot: transfer }
}

fn message(dest: u32, w0: u32, w1: u32, w2: u32, transfer: u32) -> (r: Message)
    ensures
        r == msg(dest, w0, w1, w2, transfer),
{
    Message { dest_slot: dest, w0, w1, w2, transfer_slot: transfer }
}

/// An exchange of the two messages `a`, `b` with no reply.
fn two_sends(a: Message, b: Message) -> (r: Exchange)
    ensures
        r.sends@ == seq![a, b],
        r.reply_on is None,
{
    let mut v: Vec<Message> = Vec::new();
    v.push(a);
    v.push(b);
    Exchange { sends: v, reply_on: None }
}

/// An exchange of the single message `a`, then a reply on `reply_on`.
fn request(a: Message, reply_on: Option<u32>) -> (r: Exchange)
    ensures
        r.sends@ == seq![a],
        r.reply_on == reply_on,
{
    let mut v: Vec<Message> = Vec::new();
    v.push(a);
    Exchange { sends: v, reply_on }
}

// ---------------------------------------------------------------------
// Names.
// ---------------------------------------------------------------------

/// The first eight bytes of `name`, zero-padded.
pub open spec fn name8(name: Seq<u8>) -> Seq<u8> {
    Seq::new(8, |i: int| if i < name.len() { name[i] } else { 0u8 })
}

/// Packs up to 8 bytes of `name` into two little-endian words, zero-padded
/// if shorter (longer names are truncated to 8 bytes). Both sides of the
/// name-service protocol use it.
pub fn pack_name(name: &[u8]) -> (r: (u32, u32))
    ensures
        r.0 == le32_at(name8(name@), 0),
        r.1 == le32_at(name8(name@), 4),
{
    let mut buf = [0u8; 8];
    let n = if name.len() < 8 { name.len() } else { 8 };
    let mut i: usize = 0;
    while i < n
        invariant
            n <= 8,
            n <= name@.len(),
            i <= n,
            forall|j: int| 0 <= j < i ==> buf@[j] == name@[j],
            forall|j: int| i <= j < 8 ==> buf@[j] == 0,
        decreases n - i,
    {
        buf[i] = name[i];
        i = i + 1;
    }
    assert(buf@ =~= name8(name@));
    (
        (buf[0] as u32) + (buf[1] as u32) * 0x100 + (buf[2] as u32) * 0x10000 + (buf[3] as u32) * 0x1000000,
        (buf[4] as u32) + (buf[5] as u32) * 0x100 + (buf[6] as u32) * 0x10000 + (buf[7] as u32) * 0x1000000,
    )
}

/// The ASCII upper-case form of `c`.
pub open spec fn upper(c: u8) -> u8 {
    if 0x61 <= c <= 0x7A { (c - 0x20) as u8 } else { c }
}

fn to_upper(c: u8) -> (r: u8)
    ensures
        r == upper(c),
{
    if 0x61 <= c && c <= 0x7A { c - 0x20 } else { c }
}

/// Whether `name` contains a `.`, and where the first one is.
pub open spec fn first_dot(name: Seq<u8>) -> Option<int> {
    if exists|i: int| 0 <= i < name.len() && name[i] == 0x2E {
        Some(choose|i: int| 0 <= i < name.len() && name[i] == 0x2E && forall|j: int| 0 <= j < i ==> name[j] != 0x2E)
    } else {
        None
    }
}

/// FAT's fixed 11-byte 8.3 form of `name`: up to 8 bytes before the first
/// `.`, upper-cased and space-padded, then up to 3 bytes after it likewise.
pub open spec fn fat_name_spec(name: Seq<u8>) -> Seq<u8> {
    let base = match first_dot(name) {
        Some(d) => name.take(d),
        None => name,
    };
    let ext = match first_dot(name) {
        Some(d) => name.skip(d + 1),
        None => Seq::empty(),
    };
    Seq::new(
        11,
        |i: int|
            if i < 8 {
                if i < base.len() { upper(base[i]) } else { 0x20u8 }
            } else {
                if i - 8 < ext.len() { upper(ext[i - 8]) } else { 0x20u8 }
            },
    )
}

/// Packs `name` (e.g. `HELLO.TXT`) into FAT's fixed 11-byte 8.3 form,
/// directly comparable against the raw name bytes of a directory entry.
pub fn fat_pack_name(name: &[u8]) -> (r: [u8; 11])
    ensures
        r@ == fat_name_spec(name@),
{
    let mut out = [0x20u8; 11];
    let mut dot: Option<usize> = None;
    let mut k: usize = 0;
    while k < name.len()
        invariant
            k <= name@.len(),
            dot is None ==> forall|j: int| 0 <= j < k ==> name@[j] != 0x2E,
            dot matches Some(d) ==> d < k && name@[d as int] == 0x2E && forall|j: int| 0 <= j < d ==> name@[j] != 0x2E,
        decreases name@.len() - k,
    {
        if dot.is_none() && name[k] == 0x2E {
            dot = Some(k);
        }
        k = k + 1;
    }
    proof {
        match dot {
            Some(d) => {
                assert(exists|i: int| 0 <= i < name@.len() && name@[i] == 0x2E);
                let c = first_dot(name@)->0;
                assert(c == d);
            },
            None => {},
        }
    }
    let (base_start, base_end, ext_start) = match dot {
        Some(i) => (0usize, i, i + 1),
        None => (0usize, name.len(), name.len()),
    };
    let base_len = if base_end < 8 { base_end } else { 8 };
    let mut i: usize = 0;
    while i < base_len
        invariant
            base_len <= 8,
            base_len <= base_end <= name@.len(),
            i <= base_len,
            forall|j: int| 0 <= j < i ==> out@[j] == upper(name@[j]),
            forall|j: int| i <= j < 11 ==> out@[j] == 0x20,
        decreases base_len - i,
    {
        out[i] = to_upper(name[i]);
        i = i + 1;
    }
    let ext_len = if name.len() - ext_start < 3 { name.len() - ext_start } else { 3 };
    let nl = name.len();
    let mut i: usize = 0;
    while i < ext_len
        invariant
            nl == name@.len(),
            base_len <= 8,
            base_len <= name@.len(),
            ext_len <= 3,
            ext_start + ext_len <= name@.len(),
            i <= ext_len,
            forall|j: int| 0 <= j < base_len ==> out@[j] == upper(name@[j]),
            forall|j: int| base_len <= j < 8 ==> out@[j] == 0x20,
            forall|j: int| 8 <= j < 8 + i ==> out@[j] == upper(name@[ext_start + j - 8]),
            forall|j: int| 8 + i <= j < 11 ==> out@[j] == 0x20,
        decreases ext_len - i,
    {
        out[8 + i] = to_upper(name[ext_start + i]);
        i = i + 1;
    }
    assert(out@ =~= fat_name_spec(name@));
    out
}

// ---------------------------------------------------------------------
// Printing.
// ---------------------------------------------------------------------

/// The decimal digits of `n`, most significant first, without padding.
pub open spec fn decimal(n: nat) -> Seq<u8>
    decreases n,
{
    if n < 10 {
        seq![(0x30 + n) as u8]
    } else {
        decimal(n / 10).push((0x30 + n % 10) as u8)
    }
}

/// One `OP_PUTCHAR` message to `console_slot` per byte of `s`.
pub open spec fn putchars(console_slot: u32, s: Seq<u8>) -> Seq<Message> {
    Seq::new(s.len(), |i: int| msg(console_slot, OP_PUTCHAR, s[i] as u32, 0, 0))
}

/// The messages that print `s` on the console at `console_slot`, one
/// `OP_PUTCHAR` per byte.
pub fn print(console_slot: u32, s: &[u8]) -> (r: Vec<Message>)
    ensures
        r@ == putchars(console_slot, s@),
{
    let mut out: Vec<Message> = Vec::new();
    let mut i: usize = 0;
    while i < s.len()
        invariant
            i <= s@.len(),
            out@ == putchars(console_slot, s@.take(i as int)),
        decreases s@.len() - i,
    {
        out.push(message(console_slot, OP_PUTCHAR, s[i] as u32, 0, 0));
        i = i + 1;
        assert(out@ =~= putchars(console_slot, s@.take(i as int)));
    }
    assert(s@.take(i as int) =~= s@);
    out
}

/// Appends the decimal digits of `n` to `out`.
pub fn push_decimal(out: &mut Vec<u8>, n: u32)
    ensures
        final(out)@ == old(out)@ + decimal(n as nat),
    decreases n,
{
    if n >= 10 {
        push_decimal(out, n / 10);
    }
    out.push(0x30 + (n % 10) as u8);
    assert(final(out)@ =~= old(out)@ + decimal(n as nat));
}

/// The messages that print `n` in decimal (no sign, no padding).
pub fn print_u32(console_slot: u32, n: u32) -> (r: Vec<Message>)
    ensures
        r@ == putchars(console_slot, decimal(n as nat)),
{
    let mut digits: Vec<u8> = Vec::new();
    push_decimal(&mut digits, n);
    assert(digits@ =~= decimal(n as nat));
    print(console_slot, digits.as_slice())
}

// ---------------------------------------------------------------------
// Name service.
// ---------------------------------------------------------------------

/// Registers `my_endpoint_slot` under `name` with the name service.
/// Fire-and-forget: an unauthorised registration is silently dropped by
/// the name service, so no reply comes.
pub fn register_name(name: &[u8], my_endpoint_slot: u32) -> (r: Exchange)
    ensures
        r.sends@ == seq![
            msg(NAMESERVICE_SLOT, NS_OP_REGISTER, le32_at(name8(name@), 0) as u32, le32_at(name8(name@), 4) as u32, my_endpoint_slot),
        ],
        r.reply_on is None,
{
    let (w0, w1) = pack_name(name);
    request(message(NAMESERVICE_SLOT, NS_OP_REGISTER, w0, w1, my_endpoint_slot), None)
}

/// Looks up `name` with the name service; `my_inbox_slot` travels along as
/// the reply-to address and receives the answer (decode it with
/// `lookup_reply`).
pub fn lookup_name(name: &[u8], my_inbox_slot: u32) -> (r: Exchange)
    ensures
        r.sends@ == seq![
            msg(NAMESERVICE_SLOT, NS_OP_LOOKUP, le32_at(name8(name@), 0) as u32, le32_at(name8(name@), 4) as u32, my_inbox_slot),
        ],
        r.reply_on == Some(my_inbox_slot),
{
    let (w0, w1) = pack_name(name);
    request(message(NAMESERVICE_SLOT, NS_OP_LOOKUP, w0, w1, my_inbox_slot), Some(my_inbox_slot))
}

/// The slot a lookup reply installed, if the name was found.
pub fn lookup_reply(r: &RecvResult) -> (slot: Option<u32>)
    ensures
        slot == (if r.w0 == 1 { Some(r.transferred_slot) } else { None }),
{
    if r.w0 == 1 {
        Some(r.transferred_slot)
    } else {
        None
    }
}

/// A name lookup retried up to a fixed number of times, yielding the CPU
/// after each miss. The caller performs each lookup this hands out (and
/// the yield after a miss); this decides how many lookups there are.
pub struct LookupRetry {
    pub w0: u32,
    pub w1: u32,
    pub my_inbox_slot: u32,
    /// Lookups not yet handed out.
    pub tries_left: u32,
}

/// Starts a lookup of `name` that makes at most `max_tries` attempts, each
/// answered on `my_inbox_slot`. Drive it with `next_attempt`: perform each
/// exchange it gives and hand the reply to `on_reply`; a slot from
/// `on_reply` is the answer, else yield and ask for the next attempt;
/// `None` from `next_attempt` means the lookup is over.
pub fn lookup_name_retry(name: &[u8], my_inbox_slot: u32, max_tries: u32) -> (r: LookupRetry)
    ensures
        r.w0 == le32_at(name8(name@), 0),
        r.w1 == le32_at(name8(name@), 4),
        r.my_inbox_slot == my_inbox_slot,
        r.tries_left == max_tries,
{
    let (w0, w1) = pack_name(name);
    LookupRetry { w0, w1, my_inbox_slot, tries_left: max_tries }
}

impl LookupRetry {
    /// The next lookup to perform, or `None` once all attempts are spent.
    pub fn next_attempt(&mut self) -> (r: Option<Exchange>)
        ensures
            old(self).tries_left == 0 ==> r is None && *final(self) == *old(self),
            old(self).tries_left > 0 ==> (r matches Some(x) && x.sends@ == seq![
                msg(NAMESERVICE_SLOT, NS_OP_LOOKUP, old(self).w0, old(self).w1, old(self).my_inbox_slot),
            ] && x.reply_on == Some(old(self).my_inbox_slot)) && *final(self) == (LookupRetry {
                tries_left: (old(self).tries_left - 1) as u32,
                ..*old(self)
            }),
    {
        if self.tries_left == 0 {
            return None;
        }
        self.tries_left = self.tries_left - 1;
        Some(request(message(NAMESERVICE_SLOT, NS_OP_LOOKUP, self.w0, self.w1, self.my_inbox_slot), Some(self.my_inbox_slot)))
    }

    /// Takes the reply `r` to the lookup last handed out: the slot it
    /// installed, if the name was found (`lookup_reply`), in which case no
    /// further lookups are handed out; after a miss the retries go on.
    pub fn on_reply(&mut self, r: &RecvResult) -> (found: Option<u32>)
        ensures
            found == (if r.w0 == 1 { Some(r.transferred_slot) } else { None }),
            found is Some ==> *final(self) == (LookupRetry { tries_left: 0, ..*old(self) }),
            found is None ==> *final(self) == *old(self),
    {
        let found = lookup_reply(r);
        if found.is_some() {
            self.tries_left = 0;
        }
        found
    }
}

// ---------------------------------------------------------------------
// Storage service.
// ---------------------------------------------------------------------

/// Connects to the storage service: hands it the shared page behind
/// `buf_grant_slot` to read sectors into, then `my_inbox_slot` as where
/// its replies go.
pub fn storage_connect(storage_slot: u32, buf_grant_slot: u32, my_inbox_slot: u32) -> (r: Exchange)
    ensures
        r.sends@ == seq![
            msg(storage_slot, STORAGE_OP_SET_BUFFER, 0, 0, buf_grant_slot),
            msg(storage_slot, STORAGE_OP_SET_REPLY, 0, 0, my_inbox_slot),
        ],
        r.reply_on is None,
{
    two_sends(
        message(storage_slot, STORAGE_OP_SET_BUFFER, 0, 0, buf_grant_slot),
        message(storage_slot, STORAGE_OP_SET_REPLY, 0, 0, my_inbox_slot),
    )
}

/// Reads sector `lba` into the connection's shared buffer; the reply on
/// `my_inbox_slot` says whether it worked (`block_reply_ok`).
pub fn storage_read_block(storage_slot: u32, my_inbox_slot: u32, lba: u32) -> (r: Exchange)
    ensures
        r.sends@ == seq![msg(storage_slot, STORAGE_OP_READ_BLOCK, lba, 0, 0)],
        r.reply_on == Some(my_inbox_slot),
{
    request(message(storage_slot, STORAGE_OP_READ_BLOCK, lba, 0, 0), Some(my_inbox_slot))
}

/// Writes sector `lba` from the connection's shared buffer; the reply on
/// `my_inbox_slot` says whether it worked (`block_reply_ok`).
pub fn storage_write_block(storage_slot: u32, my_inbox_slot: u32, lba: u32) -> (r: Exchange)
    ensures
        r.sends@ == seq![msg(storage_slot, STORAGE_OP_WRITE_BLOCK, lba, 0, 0)],
        r.reply_on == Some(my_inbox_slot),
{
    request(message(storage_slot, STORAGE_OP_WRITE_BLOCK, lba, 0, 0), Some(my_inbox_slot))
}

/// Whether a storage read/write reply reports success.
pub fn block_reply_ok(r: &RecvResult) -> (ok: bool)
    ensures
        ok == (r.w0 == 1),
{
    r.w0 == 1
}

// ---------------------------------------------------------------------
// Filesystem service.
// ---------------------------------------------------------------------

/// Connects to the filesystem service, same shape as `storage_connect`.
pub fn fs_connect(fs_slot: u32, buf_grant_slot: u32, my_inbox_slot: u32) -> (r: Exchange)
    ensures
        r.sends@ == seq![
            msg(fs_slot, FS_OP_SET_BUFFER, 0, 0, buf_grant_slot),
            msg(fs_slot, FS_OP_SET_REPLY, 0, 0, my_inbox_slot),
        ],
        r.reply_on is None,
{
    two_sends(
        message(fs_slot, FS_OP_SET_BUFFER, 0, 0, buf_grant_slot),
        message(fs_slot, FS_OP_SET_REPLY, 0, 0, my_inbox_slot),
    )
}

/// The two open messages for `name`: the first 8 bytes of its 8.3 form,
/// then the last 3 with the create flag.
pub open spec fn open_sends(fs_slot: u32, name: Seq<u8>, create: bool) -> Seq<Message> {
    let p = fat_name_spec(name);
    seq![
        msg(fs_slot, FS_OP_OPEN_NAME1, le32_at(p, 0) as u32, le32_at(p, 4) as u32, 0),
        msg(fs_slot, FS_OP_OPEN_NAME2, le32_at(p.subrange(8, 11).push(0), 0) as u32, if create { 1 } else { 0 }, 0),
    ]
}

fn fs_open_impl(fs_slot: u32, my_inbox_slot: u32, name: &[u8], create: bool) -> (r: Exchange)
    ensures
        r.sends@ == open_sends(fs_slot, name@, create),
        r.reply_on == Some(my_inbox_slot),
{
    let packed = fat_pack_name(name);
    let w1 = (packed[0] as u32) + (packed[1] as u32) * 0x100 + (packed[2] as u32) * 0x10000 + (packed[3] as u32)
        * 0x1000000;
    let w2 = (packed[4] as u32) + (packed[5] as u32) * 0x100 + (packed[6] as u32) * 0x10000 + (packed[7] as u32)
        * 0x1000000;
    let w1b = (packed[8] as u32) + (packed[9] as u32) * 0x100 + (packed[10] as u32) * 0x10000;
    let ghost p = fat_name_spec(name@);
    assert(p.subrange(8, 11).push(0)[0] == packed@[8]);
    assert(p.subrange(8, 11).push(0)[3] == 0);
    let mut v: Vec<Message> = Vec::new();
    v.push(message(fs_slot, FS_OP_OPEN_NAME1, w1, w2, 0));
    v.push(message(fs_slot, FS_OP_OPEN_NAME2, w1b, if create { 1 } else { 0 }, 0));
    Exchange { sends: v, reply_on: Some(my_inbox_slot) }
}

/// Opens `name` (e.g. `HELLO.TXT`) as the filesystem service's current
/// file; the reply (`open_reply`) gives its size if it was found.
pub fn fs_open(fs_slot: u32, my_inbox_slot: u32, name: &[u8]) -> (r: Exchange)
    ensures
        r.sends@ == open_sends(fs_slot, name@, false),
        r.reply_on == Some(my_inbox_slot),
{
    fs_open_impl(fs_slot, my_inbox_slot, name, false)
}

/// Opens `name` for writing, creating a fresh zero-length file if it does
/// not exist; the reply (`open_reply`) gives its current size.
pub fn fs_open_for_write(fs_slot: u32, my_inbox_slot: u32, name: &[u8]) -> (r: Exchange)
    ensures
        r.sends@ == open_sends(fs_slot, name@, true),
        r.reply_on == Some(my_inbox_slot),
{
    fs_open_impl(fs_slot, my_inbox_slot, name, true)
}

/// The opened file's size, if an open reply reports success.
pub fn open_reply(r: &RecvResult) -> (size: Option<u32>)
    ensures
        size == (if r.w0 == 1 { Some(r.w1) } else { None }),
{
    if r.w0 == 1 {
        Some(r.w1)
    } else {
        None
    }
}

/// Reads up to `len` bytes at `offset` of the open file into the shared
/// buffer; the reply's first word is how many bytes arrived (`0` = end of
/// file or no file open).
pub fn fs_read(fs_slot: u32, my_inbox_slot: u32, offset: u32, len: u32) -> (r: Exchange)
    ensures
        r.sends@ == seq![msg(fs_slot, FS_OP_READ, offset, len, 0)],
        r.reply_on == Some(my_inbox_slot),
{
    request(message(fs_slot, FS_OP_READ, offset, len, 0), Some(my_inbox_slot))
}

/// Writes `len` bytes at `offset` from the shared buffer into the open
/// file; the reply's first word is how many bytes were written.
pub fn fs_write(fs_slot: u32, my_inbox_slot: u32, offset: u32, len: u32) -> (r: Exchange)
    ensures
        r.sends@ == seq![msg(fs_slot, FS_OP_WRITE, offset, len, 0)],
        r.reply_on == Some(my_inbox_slot),
{
    request(message(fs_slot, FS_OP_WRITE, offset, len, 0), Some(my_inbox_slot))
}

/// Shrinks the open file to `new_size` bytes; a file never grows this way.
/// Decode the reply with `truncate_reply`.
pub fn fs_truncate(fs_slot: u32, my_inbox_slot: u32, new_size: u32) -> (r: Exchange)
    ensures
        r.sends@ == seq![msg(fs_slot, FS_OP_TRUNCATE, new_size, 0, 0)],
        r.reply_on == Some(my_inbox_slot),
{
    request(message(fs_slot, FS_OP_TRUNCATE, new_size, 0, 0), Some(my_inbox_slot))
}

/// Whether a truncate reply reports success.
pub fn truncate_reply(r: &RecvResult) -> (ok: bool)
    ensures
        ok == (r.w0 == 1),
{
    r.w0 == 1
}

// ---------------------------------------------------------------------
// Console input.
// ---------------------------------------------------------------------

/// Connects to the console's line-input protocol: the shared page a
/// completed line is placed in, then the endpoint line-ready replies go to.
pub fn console_connect(console_slot: u32, buf_grant_slot: u32, reader_slot: u32) -> (r: Exchange)
    ensures
        r.sends@ == seq![
            msg(console_slot, CONSOLE_OP_SET_BUFFER, 0, 0, buf_grant_slot),
            msg(console_slot, CONSOLE_OP_SET_READER, 0, 0, reader_slot),
        ],
        r.reply_on is None,
{
    two_sends(
        message(console_slot, CONSOLE_OP_SET_BUFFER, 0, 0, buf_grant_slot),
        message(console_slot, CONSOLE_OP_SET_READER, 0, 0, reader_slot),
    )
}

/// Requests the next typed line; the reply on `reader_slot` gives its
/// length in the shared buffer (newline excluded).
pub fn console_read_line(console_slot: u32, reader_slot: u32) -> (r: Exchange)
    ensures
        r.sends@ == seq![msg(console_slot, CONSOLE_OP_READ_LINE, 0, 0, 0)],
        r.reply_on == Some(reader_slot),
{
    request(message(console_slot, CONSOLE_OP_READ_LINE, 0, 0, 0), Some(reader_slot))
}

/// Switches the connection to raw single-keystroke mode (`raw`) or back
/// to line mode.
pub fn console_set_mode(console_slot: u32, raw: bool) -> (r: Exchange)
    ensures
        r.sends@ == seq![msg(console_slot, CONSOLE_OP_SET_MODE, if raw { 1 } else { 0 }, 0, 0)],
        r.reply_on is None,
{
    request(message(console_slot, CONSOLE_OP_SET_MODE, if raw { 1 } else { 0 }, 0, 0), None)
}

/// Requests the next decoded key in raw mode; the reply's first word is
/// the key.
pub fn console_read_key(console_slot: u32, reader_slot: u32) -> (r: Exchange)
    ensures
        r.sends@ == seq![msg(console_slot, CONSOLE_OP_READ_KEY, 0, 0, 0)],
        r.reply_on == Some(reader_slot),
{
    request(message(console_slot, CONSOLE_OP_READ_KEY, 0, 0, 0), Some(reader_slot))
}

} // verus!

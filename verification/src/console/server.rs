//! The console server's decisions: echoing keystrokes through the ANSI
//! parser, line-mode input accumulation, raw single-keystroke mode with a
//! bounded key queue, and the reader-ownership latch that keeps any task
//! but the first successfully connected reader from re-pointing the input
//! connection at itself.
//!
//! Each received message is handled by `ConsoleServer::handle`, which
//! returns what to do: screen operations, a byte to store in the reader's
//! shared input buffer, a word to send to the reader, or a buffer grant to
//! map (whose outcome comes back through `input_buffer_mapped`).
use vstd::prelude::*;
use crate::console::ansi::{AnsiModel, AnsiState, ScreenOp, feed_spec as ansi_feed_spec};
use crate::console::keyboard::{Decoder, feed_spec as key_feed_spec};
use crate::ipc::{RecvResult, KERNEL_TASK_ID, OP_PUTCHAR, CONSOLE_OP_SET_BUFFER, CONSOLE_OP_SET_READER, CONSOLE_OP_READ_LINE, CONSOLE_OP_SET_MODE, CONSOLE_OP_READ_KEY, CONSOLE_LINE_MAX};

verus! {

/// How many decoded keys raw mode holds for a reader that has not asked yet.
pub const KEY_QUEUE_CAP: usize = 32;
pub const BACKSPACE: u8 = 8;
pub const NEWLINE: u8 = 0x0A;

/// The console server's state as values.
pub struct ConsoleModel {
    pub ansi: AnsiModel,
    pub decoder: Decoder,
    /// A reader's input buffer is mapped.
    pub input_buf_mapped: bool,
    /// The reader's line-ready endpoint (`0` = none).
    pub reader_slot: u32,
    /// Task id of the reader that owns the connection (`0` = none yet).
    pub reader_owner: u32,
    /// A line request is outstanding.
    pub armed: bool,
    /// A completed line waits to be claimed.
    pub line_ready: bool,
    pub line_len: nat,
    pub raw_mode: bool,
    /// A key request is outstanding.
    pub key_armed: bool,
    /// Keys decoded in raw mode and not yet delivered, oldest first.
    pub keys: Seq<u32>,
}

/// What handling one message decided, as values.
pub struct ConsoleOut {
    pub screen: Seq<ScreenOp>,
    /// Store `(index, byte)` into the reader's input buffer.
    pub store: Option<(nat, u8)>,
    /// Send word `.1` to slot `.0`.
    pub reply: Option<(u32, u32)>,
    /// Map this grant as the reader's input buffer.
    pub map_slot: Option<u32>,
}

/// What handling one message decided.
pub struct ConsoleEffects {
    /// Screen operations, in order; the hardware cursor is to be synced
    /// after them whenever there are any.
    pub screen: Vec<ScreenOp>,
    pub store: Option<(usize, u8)>,
    pub reply: Option<(u32, u32)>,
    pub map_slot: Option<u32>,
}

impl ConsoleEffects {
    pub open spec fn view(&self) -> ConsoleOut {
        ConsoleOut {
            screen: self.screen@,
            store: match self.store {
                Some((i, b)) => Some((i as nat, b)),
                None => None,
            },
            reply: self.reply,
            map_slot: self.map_slot,
        }
    }
}

pub open spec fn quiet() -> ConsoleOut {
    ConsoleOut { screen: Seq::empty(), store: None, reply: None, map_slot: None }
}

/// A typed ASCII byte in line mode: echoed, and accumulated into the line
/// while a buffer is connected and no completed line is waiting.
pub open spec fn line_key_spec(m: ConsoleModel, ascii: u8) -> (ConsoleModel, ConsoleOut) {
    let (a2, screen) = ansi_feed_spec(m.ansi, ascii);
    let m1 = ConsoleModel { ansi: a2, ..m };
    let out = ConsoleOut { screen, ..quiet() };
    if m.input_buf_mapped && !m.line_ready {
        if ascii == BACKSPACE {
            (ConsoleModel { line_len: if m.line_len > 0 { (m.line_len - 1) as nat } else { 0 }, ..m1 }, out)
        } else if ascii == NEWLINE {
            if m.armed && m.reader_slot != 0 {
                (ConsoleModel { armed: false, line_len: 0, ..m1 }, ConsoleOut { reply: Some((m.reader_slot, m.line_len as u32)), ..out })
            } else {
                (ConsoleModel { line_ready: true, ..m1 }, out)
            }
        } else if m.line_len < CONSOLE_LINE_MAX {
            (ConsoleModel { line_len: m.line_len + 1, ..m1 }, ConsoleOut { store: Some((m.line_len, ascii)), ..out })
        } else {
            (m1, out)
        }
    } else {
        (m1, out)
    }
}

/// A scancode forwarded by the kernel.
pub open spec fn scancode_spec(m: ConsoleModel, scancode: u8) -> (ConsoleModel, ConsoleOut) {
    let (d2, key) = key_feed_spec(m.decoder, scancode);
    let m1 = ConsoleModel { decoder: d2, ..m };
    match key {
        None => (m1, quiet()),
        Some(k) => if m.raw_mode {
            if m.key_armed && m.reader_slot != 0 {
                (ConsoleModel { key_armed: false, ..m1 }, ConsoleOut { reply: Some((m.reader_slot, k)), ..quiet() })
            } else if m.keys.len() < KEY_QUEUE_CAP {
                (ConsoleModel { keys: m.keys.push(k), ..m1 }, quiet())
            } else {
                (m1, quiet())
            }
        } else if k >= 256 {
            (m1, quiet())
        } else {
            line_key_spec(m1, k as u8)
        },
    }
}

/// A message from a task.
pub open spec fn request_spec(m: ConsoleModel, r: RecvResult) -> (ConsoleModel, ConsoleOut) {
    let owner_ok = m.reader_owner == r.sender;
    if r.w0 == OP_PUTCHAR {
        let (a2, screen) = ansi_feed_spec(m.ansi, (r.w1 % 256) as u8);
        (ConsoleModel { ansi: a2, ..m }, ConsoleOut { screen, ..quiet() })
    } else if r.w0 == CONSOLE_OP_SET_BUFFER {
        if (m.reader_owner == 0 || owner_ok) && r.transferred_slot != 0 {
            (m, ConsoleOut { map_slot: Some(r.transferred_slot), ..quiet() })
        } else {
            (m, quiet())
        }
    } else if r.w0 == CONSOLE_OP_SET_READER {
        if owner_ok && r.transferred_slot != 0 {
            (ConsoleModel { reader_slot: r.transferred_slot, ..m }, quiet())
        } else {
            (m, quiet())
        }
    } else if r.w0 == CONSOLE_OP_READ_LINE {
        if owner_ok && m.reader_slot != 0 {
            if !m.input_buf_mapped {
                (m, ConsoleOut { reply: Some((m.reader_slot, 0)), ..quiet() })
            } else if m.line_ready {
                (ConsoleModel { line_ready: false, line_len: 0, ..m }, ConsoleOut { reply: Some((m.reader_slot, m.line_len as u32)), ..quiet() })
            } else {
                (ConsoleModel { armed: true, ..m }, quiet())
            }
        } else {
            (m, quiet())
        }
    } else if r.w0 == CONSOLE_OP_SET_MODE {
        if owner_ok {
            (ConsoleModel { raw_mode: r.w1 != 0, ..m }, quiet())
        } else {
            (m, quiet())
        }
    } else if r.w0 == CONSOLE_OP_READ_KEY {
        if owner_ok && m.reader_slot != 0 {
            if m.keys.len() > 0 {
                (ConsoleModel { keys: m.keys.drop_first(), ..m }, ConsoleOut { reply: Some((m.reader_slot, m.keys[0])), ..quiet() })
            } else {
                (ConsoleModel { key_armed: true, ..m }, quiet())
            }
        } else {
            (m, quiet())
        }
    } else {
        (m, quiet())
    }
}

/// One received message.
pub open spec fn handle_spec(m: ConsoleModel, r: RecvResult) -> (ConsoleModel, ConsoleOut) {
    if r.sender == KERNEL_TASK_ID {
        scancode_spec(m, (r.w1 % 256) as u8)
    } else {
        request_spec(m, r)
    }
}

/// The ownership latch: handling a message never changes which task owns
/// the reader connection (only a successful buffer mapping does, through
/// `input_buffer_mapped`).
pub proof fn lemma_owner_only_latched_by_mapping(m: ConsoleModel, r: RecvResult)
    ensures
        handle_spec(m, r).0.reader_owner == m.reader_owner,
{
}

/// Once a reader owns the connection, a message from any other task can
/// neither re-point the connection (its endpoint, buffer or mode), nor
/// claim a line or a key, nor receive anything: at most it prints to the
/// screen.
pub proof fn lemma_non_owner_cannot_take_over(m: ConsoleModel, r: RecvResult)
    requires
        m.reader_owner != 0,
        r.sender != m.reader_owner,
        r.sender != KERNEL_TASK_ID,
    ensures
        ({
            let (m2, out) = handle_spec(m, r);
            &&& out.reply is None
            &&& out.map_slot is None
            &&& out.store is None
            &&& m2 == ConsoleModel { ansi: m2.ansi, ..m }
        }),
{
}

/// Raw-mode keys reach the reader in the order they were typed: a key
/// request is answered with the oldest queued key, and a newly decoded key
/// joins the back of the queue.
pub proof fn lemma_keys_first_in_first_out(m: ConsoleModel, r: RecvResult)
    requires
        r.sender != KERNEL_TASK_ID,
        r.w0 == CONSOLE_OP_READ_KEY,
        r.sender == m.reader_owner,
        m.reader_slot != 0,
        m.keys.len() > 0,
    ensures
        handle_spec(m, r).1.reply == Some((m.reader_slot, m.keys[0])),
        handle_spec(m, r).0.keys == m.keys.drop_first(),
{
}

pub struct ConsoleServer {
    ansi: AnsiState,
    decoder: Decoder,
    input_buf_mapped: bool,
    reader_slot: u32,
    reader_owner: u32,
    armed: bool,
    line_ready: bool,
    line_len: usize,
    raw_mode: bool,
    key_armed: bool,
    key_queue: [u32; KEY_QUEUE_CAP],
    key_queue_head: usize,
    key_queue_len: usize,
}

impl ConsoleServer {
    pub closed spec fn view(&self) -> ConsoleModel {
        ConsoleModel {
            ansi: self.ansi.view(),
            decoder: self.decoder,
            input_buf_mapped: self.input_buf_mapped,
            reader_slot: self.reader_slot,
            reader_owner: self.reader_owner,
            armed: self.armed,
            line_ready: self.line_ready,
            line_len: self.line_len as nat,
            raw_mode: self.raw_mode,
            key_armed: self.key_armed,
            keys: Seq::new(
                self.key_queue_len as nat,
                |i: int| self.key_queue@[(self.key_queue_head + i) % (KEY_QUEUE_CAP as int)],
            ),
        }
    }

    /// The queue indices stay in range and the line never exceeds
    /// `CONSOLE_LINE_MAX`.
    pub closed spec fn wf(&self) -> bool {
        &&& self.key_queue_head < KEY_QUEUE_CAP
        &&& self.key_queue_len <= KEY_QUEUE_CAP
        &&& self.line_len <= CONSOLE_LINE_MAX
    }

    /// A server with no reader, in line mode, nothing typed.
    pub fn new() -> (r: Self)
        ensures
            r.wf(),
            r.view().reader_owner == 0,
            r.view().reader_slot == 0,
            !r.view().input_buf_mapped,
            !r.view().raw_mode,
            !r.view().armed && !r.view().key_armed && !r.view().line_ready,
            r.view().line_len == 0,
            r.view().keys.len() == 0,
    {
        ConsoleServer {
            ansi: AnsiState::new(),
            decoder: Decoder::new(),
            input_buf_mapped: false,
            reader_slot: 0,
            reader_owner: 0,
            armed: false,
            line_ready: false,
            line_len: 0,
            raw_mode: false,
            key_armed: false,
            key_queue: [0; KEY_QUEUE_CAP],
            key_queue_head: 0,
            key_queue_len: 0,
        }
    }

    /// Records the outcome of mapping the input buffer `sender` offered: a
    /// successful mapping latches `sender` as the connection's owner.
    pub fn input_buffer_mapped(&mut self, sender: u32, map_ok: bool)
        requires
            old(self).wf(),
        ensures
            final(self).wf(),
            final(self).view() == (if map_ok {
                ConsoleModel { reader_owner: sender, input_buf_mapped: true, ..old(self).view() }
            } else {
                old(self).view()
            }),
    {
        if map_ok {
            self.reader_owner = sender;
            self.input_buf_mapped = true;
        }
    }

    fn line_key(&mut self, ascii: u8) -> (out: ConsoleEffects)
        requires
            old(self).wf(),
        ensures
            final(self).wf(),
            (final(self).view(), out.view()) == line_key_spec(old(self).view(), ascii),
    {
        let screen = self.ansi.feed(ascii);
        let mut out = ConsoleEffects { screen, store: None, reply: None, map_slot: None };
        if self.input_buf_mapped && !self.line_ready {
            if ascii == BACKSPACE {
                if self.line_len > 0 {
                    self.line_len = self.line_len - 1;
                }
            } else if ascii == NEWLINE {
                if self.armed && self.reader_slot != 0 {
                    out.reply = Some((self.reader_slot, self.line_len as u32));
                    self.armed = false;
                    self.line_len = 0;
                } else {
                    self.line_ready = true;
                }
            } else if self.line_len < CONSOLE_LINE_MAX {
                out.store = Some((self.line_len, ascii));
                self.line_len = self.line_len + 1;
            }
        }
        out
    }

    fn scancode(&mut self, scancode: u8) -> (out: ConsoleEffects)
        requires
            old(self).wf(),
        ensures
            final(self).wf(),
            (final(self).view(), out.view()) == scancode_spec(old(self).view(), scancode),
    {
        let none = ConsoleEffects { screen: Vec::new(), store: None, reply: None, map_slot: None };
        match self.decoder.feed(scancode) {
            None => none,
            Some(key) => {
                if self.raw_mode {
                    if self.key_armed && self.reader_slot != 0 {
                        self.key_armed = false;
                        return ConsoleEffects { reply: Some((self.reader_slot, key)), ..none };
                    } else if self.key_queue_len < KEY_QUEUE_CAP {
                        let ghost keys = self.view().keys;
                        let idx = (self.key_queue_head + self.key_queue_len) % KEY_QUEUE_CAP;
                        self.key_queue[idx] = key;
                        self.key_queue_len = self.key_queue_len + 1;
                        proof {
                            let v = self.view().keys;
                            assert forall|i: int| 0 <= i < v.len() implies v[i] == keys.push(key)[i] by {
                                if i < keys.len() {
                                    assert((self.key_queue_head + i) % 32 != idx as int) by (nonlinear_arith)
                                        requires
                                            0 <= i < keys.len(),
                                            keys.len() < 32,
                                            self.key_queue_head < 32,
                                            idx as int == (self.key_queue_head + keys.len()) % 32;
                                }
                            }
                            assert(v =~= keys.push(key));
                        }
                    }
                    return none;
                }
                if key >= 256 {
                    return none;
                }
                self.line_key(key as u8)
            },
        }
    }

    /// Handles one received message: a scancode forwarded by the kernel
    /// (sender `KERNEL_TASK_ID`, scancode in `w1`), or a task's request. The
    /// connection's setup, reads and mode switch are honoured only from the
    /// task that owns the connection.
    pub fn handle(&mut self, r: RecvResult) -> (out: ConsoleEffects)
        requires
            old(self).wf(),
        ensures
            final(self).wf(),
            (final(self).view(), out.view()) == handle_spec(old(self).view(), r),
    {
        let none = ConsoleEffects { screen: Vec::new(), store: None, reply: None, map_slot: None };
        if r.sender == KERNEL_TASK_ID {
            return self.scancode((r.w1 % 256) as u8);
        }
        let owner_ok = self.reader_owner == r.sender;
        if r.w0 == OP_PUTCHAR {
            let screen = self.ansi.feed((r.w1 % 256) as u8);
            ConsoleEffects { screen, ..none }
        } else if r.w0 == CONSOLE_OP_SET_BUFFER {
            if (self.reader_owner == 0 || owner_ok) && r.transferred_slot != 0 {
                ConsoleEffects { map_slot: Some(r.transferred_slot), ..none }
            } else {
                none
            }
        } else if r.w0 == CONSOLE_OP_SET_READER {
            if owner_ok && r.transferred_slot != 0 {
                self.reader_slot = r.transferred_slot;
            }
            none
        } else if r.w0 == CONSOLE_OP_READ_LINE {
            if owner_ok && self.reader_slot != 0 {
                if !self.input_buf_mapped {
                    return ConsoleEffects { reply: Some((self.reader_slot, 0)), ..none };
                } else if self.line_ready {
                    let n = self.line_len as u32;
                    self.line_ready = false;
                    self.line_len = 0;
                    return ConsoleEffects { reply: Some((self.reader_slot, n)), ..none };
                } else {
                    self.armed = true;
                }
            }
            none
        } else if r.w0 == CONSOLE_OP_SET_MODE {
            if owner_ok {
                self.raw_mode = r.w1 != 0;
            }
            none
        } else if r.w0 == CONSOLE_OP_READ_KEY {
            if owner_ok && self.reader_slot != 0 {
                if self.key_queue_len > 0 {
                    let ghost keys = self.view().keys;
                    let ghost h0 = self.key_queue_head as int;
                    let key = self.key_queue[self.key_queue_head];
                    self.key_queue_head = (self.key_queue_head + 1) % KEY_QUEUE_CAP;
                    self.key_queue_len = self.key_queue_len - 1;
                    proof {
                        let v = self.view().keys;
                        assert forall|i: int| 0 <= i < v.len() implies v[i] == keys.drop_first()[i] by {
                            let h1 = self.key_queue_head as int;
                            assert((h1 + i) % 32 == (h0 + (i + 1)) % 32) by (nonlinear_arith)
                                requires
                                    h1 == (h0 + 1) % 32,
                                    0 <= i;
                        }
                        assert(v =~= keys.drop_first());
                        assert(keys[0] == key);
                    }
                    return ConsoleEffects { reply: Some((self.reader_slot, key)), ..none };
                } else {
                    self.key_armed = true;
                }
            }
            none
        } else {
            none
        }
    }
}

/// The line state after typing the bytes of `s` in line mode, one by one.
pub open spec fn type_bytes(m: ConsoleModel, s: Seq<u8>) -> ConsoleModel
    decreases s.len(),
{
    if s.len() == 0 {
        m
    } else {
        type_bytes(line_key_spec(m, s[0]).0, s.drop_first())
    }
}

/// A byte that is neither Backspace nor Enter.
pub open spec fn plain_byte(b: u8) -> bool {
    b != 8 && b != 0x0A
}

/// Typing plain bytes into a connected line fills the input buffer in
/// order: the `i`-th byte typed is stored at index `line_len + i`, and the
/// line grows by the number of bytes typed (within the line limit); the
/// connection, the reader and any outstanding request stay as they were.
pub proof fn lemma_typing_fills_line_in_order(m: ConsoleModel, s: Seq<u8>)
    requires
        m.input_buf_mapped,
        !m.line_ready,
        m.line_len + s.len() <= CONSOLE_LINE_MAX,
        forall|i: int| 0 <= i < s.len() ==> plain_byte(#[trigger] s[i]),
    ensures
        type_bytes(m, s).line_len == m.line_len + s.len(),
        type_bytes(m, s).input_buf_mapped,
        !type_bytes(m, s).line_ready,
        type_bytes(m, s).armed == m.armed,
        type_bytes(m, s).reader_slot == m.reader_slot,
        type_bytes(m, s).reader_owner == m.reader_owner,
        forall|i: int|
            0 <= i < s.len() ==> (#[trigger] line_key_spec(type_bytes(m, s.take(i)), s[i])).1.store == Some(
                ((m.line_len + i) as nat, s[i]),
            ),
    decreases s.len(),
{
    if s.len() > 0 {
        let m1 = line_key_spec(m, s[0]).0;
        let rest = s.drop_first();
        assert forall|i: int| 0 <= i < rest.len() implies plain_byte(#[trigger] rest[i]) by {
            assert(rest[i] == s[i + 1]);
        }
        lemma_typing_fills_line_in_order(m1, rest);
        assert forall|i: int|
            0 <= i < s.len() implies (#[trigger] line_key_spec(type_bytes(m, s.take(i)), s[i])).1.store == Some(
            ((m.line_len + i) as nat, s[i]),
        ) by {
            if i == 0 {
                assert(s.take(0) =~= Seq::<u8>::empty());
            } else {
                assert(s.take(i).drop_first() =~= rest.take(i - 1));
                assert(s.take(i)[0] == s[0]);
                assert(type_bytes(m, s.take(i)) == type_bytes(m1, rest.take(i - 1)));
                assert(rest[i - 1] == s[i]);
                assert(line_key_spec(type_bytes(m1, rest.take(i - 1)), rest[i - 1]).1.store == Some(
                    ((m1.line_len + (i - 1)) as nat, rest[i - 1]),
                ));
            }
        }
    }
}

/// Enter on a connected line that a reader is waiting for delivers the
/// line's length to the reader and starts the next line empty: the line
/// length is back to 0 and no request is outstanding.
pub proof fn lemma_enter_delivers_and_starts_empty(m: ConsoleModel)
    requires
        m.input_buf_mapped,
        !m.line_ready,
        m.armed,
        m.reader_slot != 0,
    ensures
        line_key_spec(m, 0x0A).1.reply == Some((m.reader_slot, m.line_len as u32)),
        line_key_spec(m, 0x0A).1.store is None,
        line_key_spec(m, 0x0A).0.line_len == 0,
        !line_key_spec(m, 0x0A).0.armed,
        !line_key_spec(m, 0x0A).0.line_ready,
{
}

/// Two lines in a row are delivered separately: a reader that asks for a
/// line, gets the first one (`s1`) on Enter, and asks again, gets on the
/// next Enter the length of `s2` alone, the bytes of `s2` having been
/// stored from index 0 of its input buffer.
pub proof fn lemma_lines_are_delivered_separately(m: ConsoleModel, s1: Seq<u8>, s2: Seq<u8>, r: RecvResult)
    requires
        m.input_buf_mapped,
        !m.line_ready,
        m.armed,
        m.reader_slot != 0,
        m.line_len == 0,
        s1.len() <= CONSOLE_LINE_MAX,
        s2.len() <= CONSOLE_LINE_MAX,
        forall|i: int| 0 <= i < s1.len() ==> plain_byte(#[trigger] s1[i]),
        forall|i: int| 0 <= i < s2.len() ==> plain_byte(#[trigger] s2[i]),
        r.w0 == CONSOLE_OP_READ_LINE,
        r.sender == m.reader_owner,
    ensures
        ({
            let (m2, out1) = line_key_spec(type_bytes(m, s1), 0x0A);
            let m3 = request_spec(m2, r).0;
            let m4 = type_bytes(m3, s2);
            &&& out1.reply == Some((m.reader_slot, s1.len() as u32))
            &&& m3.armed
            &&& forall|i: int| 0 <= i < s2.len() ==> (#[trigger] line_key_spec(type_bytes(m3, s2.take(i)), s2[i])).1.store
                == Some((i as nat, s2[i]))
            &&& line_key_spec(m4, 0x0A).1.reply == Some((m.reader_slot, s2.len() as u32))
        }),
{
    lemma_typing_fills_line_in_order(m, s1);
    let m1 = type_bytes(m, s1);
    lemma_enter_delivers_and_starts_empty(m1);
    let m2 = line_key_spec(m1, 0x0A).0;
    let m3 = request_spec(m2, r).0;
    assert(m3.armed && m3.line_len == 0 && m3.input_buf_mapped && !m3.line_ready && m3.reader_slot == m.reader_slot);
    lemma_typing_fills_line_in_order(m3, s2);
    let m4 = type_bytes(m3, s2);
    lemma_enter_delivers_and_starts_empty(m4);
}

} // verus!

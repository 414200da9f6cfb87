use zephyrlite::console::ansi::{AnsiState, Color, ScreenOp};
use zephyrlite::console::keyboard::{extended_key, Decoder, KEY_DELETE, KEY_END, KEY_HOME, KEY_UP};
use zephyrlite::console::server::ConsoleServer;
use zephyrlite::ipc::{
    RecvResult, CONSOLE_OP_READ_KEY, CONSOLE_OP_READ_LINE, CONSOLE_OP_SET_BUFFER, CONSOLE_OP_SET_MODE,
    CONSOLE_OP_SET_READER, KERNEL_TASK_ID, OP_PUTCHAR,
};

fn feed_all(a: &mut AnsiState, bytes: &[u8]) -> Vec<ScreenOp> {
    let mut out = Vec::new();
    for &b in bytes {
        out.extend(a.feed(b));
    }
    out
}

#[test]
fn ansi_plain_bytes_print() {
    let mut a = AnsiState::new();
    assert_eq!(feed_all(&mut a, b"Hi\n"), vec![ScreenOp::PutChar(b'H'), ScreenOp::PutChar(b'i'), ScreenOp::PutChar(b'\n')]);
}

#[test]
fn ansi_cursor_and_erase_sequences() {
    let mut a = AnsiState::new();
    assert_eq!(feed_all(&mut a, b"\x1b[2J"), vec![ScreenOp::EraseInDisplay(2)]);
    assert_eq!(feed_all(&mut a, b"\x1b[K"), vec![ScreenOp::EraseInLine(0)]);
    assert_eq!(feed_all(&mut a, b"\x1b[H"), vec![ScreenOp::SetCursorPos(0, 0)]);
    assert_eq!(feed_all(&mut a, b"\x1b[5;10H"), vec![ScreenOp::SetCursorPos(4, 9)]);
    assert_eq!(feed_all(&mut a, b"\x1b[A"), vec![ScreenOp::MoveCursor(-1, 0)]);
    assert_eq!(feed_all(&mut a, b"\x1b[3B"), vec![ScreenOp::MoveCursor(3, 0)]);
    assert_eq!(feed_all(&mut a, b"\x1b[0C"), vec![ScreenOp::MoveCursor(0, 1)]);
    assert_eq!(feed_all(&mut a, b"\x1b[3D"), vec![ScreenOp::MoveCursor(0, -3)]);
    // Parameters saturate instead of overflowing.
    assert_eq!(feed_all(&mut a, b"\x1b[999999C"), vec![ScreenOp::MoveCursor(0, 65535)]);
}

#[test]
fn ansi_sgr_sequences() {
    let mut a = AnsiState::new();
    assert_eq!(feed_all(&mut a, b"\x1b[m"), vec![ScreenOp::ResetAttributes]);
    assert_eq!(
        feed_all(&mut a, b"\x1b[1;31;44m"),
        vec![ScreenOp::SetBold(true), ScreenOp::SetFg(Color::Low(1)), ScreenOp::SetBg(Color::Low(4))]
    );
    assert_eq!(
        feed_all(&mut a, b"\x1b[22;39;49;92m"),
        vec![
            ScreenOp::SetBold(false),
            ScreenOp::SetFg(Color::LightGray),
            ScreenOp::SetBg(Color::Black),
            ScreenOp::SetFg(Color::Bright(2)),
        ]
    );
    // Unknown SGR parameters are skipped.
    assert_eq!(feed_all(&mut a, b"\x1b[5;0m"), vec![ScreenOp::ResetAttributes]);
}

#[test]
fn ansi_unknown_sequences_are_swallowed() {
    let mut a = AnsiState::new();
    assert_eq!(feed_all(&mut a, b"\x1bx"), vec![]);
    assert_eq!(feed_all(&mut a, b"\x1b[?25l"), vec![]);
    assert_eq!(feed_all(&mut a, b"z"), vec![ScreenOp::PutChar(b'z')]);
    // A byte that cannot continue a sequence aborts it.
    assert_eq!(feed_all(&mut a, b"\x1b[1\x01q"), vec![ScreenOp::PutChar(b'q')]);
}

#[test]
fn keyboard_letters_shift_and_release() {
    let mut d = Decoder::new();
    assert_eq!(d.feed(0x1E), Some(b'a' as u32));
    assert_eq!(d.feed(0x9E), None);
    assert_eq!(d.feed(0x2A), None);
    assert!(d.shift);
    assert_eq!(d.feed(0x1E), Some(b'A' as u32));
    assert_eq!(d.feed(0x02), Some(b'!' as u32));
    assert_eq!(d.feed(0xAA), None);
    assert!(!d.shift);
    assert_eq!(d.feed(0x02), Some(b'1' as u32));
    assert_eq!(d.feed(0x1C), Some(10));
    assert_eq!(d.feed(0x0E), Some(8));
    // Codes past the table, and keys with no ASCII form, give nothing.
    assert_eq!(d.feed(0x3A), None);
    assert_eq!(d.feed(0x38), None);
}

#[test]
fn keyboard_ctrl_letters() {
    let mut d = Decoder::new();
    assert_eq!(d.feed(0x1D), None);
    assert!(d.ctrl);
    assert_eq!(d.feed(0x2E), Some(3));
    assert_eq!(d.feed(0x1F), Some(0x13));
    assert_eq!(d.feed(0x10), Some(0x11));
    // Ctrl leaves non-letters alone.
    assert_eq!(d.feed(0x02), Some(b'1' as u32));
    assert_eq!(d.feed(0x9D), None);
    assert_eq!(d.feed(0x2E), Some(b'c' as u32));
}

#[test]
fn keyboard_extended_keys() {
    let mut d = Decoder::new();
    assert_eq!(d.feed(0xE0), None);
    assert!(d.pending_extended);
    assert_eq!(d.feed(0x48), Some(KEY_UP));
    assert!(!d.pending_extended);
    assert_eq!(d.feed(0xE0), None);
    assert_eq!(d.feed(0xC8), None);
    assert_eq!(d.feed(0xE0), None);
    assert_eq!(d.feed(0x10), None);
    assert_eq!(extended_key(0x47), Some(KEY_HOME));
    assert_eq!(extended_key(0x4F), Some(KEY_END));
    assert_eq!(extended_key(0x53), Some(KEY_DELETE));
    assert_eq!(extended_key(0x00), None);
}

const READER: u32 = 10;
const INTRUDER: u32 = 11;

fn task(sender: u32, w0: u32, w1: u32, slot: u32) -> RecvResult {
    RecvResult { sender, w0, w1, w2: 0, transferred_slot: slot }
}

fn scancode(code: u8) -> RecvResult {
    RecvResult { sender: KERNEL_TASK_ID, w0: 0, w1: code as u32, w2: 0, transferred_slot: 0 }
}

fn connected() -> ConsoleServer {
    let mut s = ConsoleServer::new();
    let out = s.handle(task(READER, CONSOLE_OP_SET_BUFFER, 0, 20));
    assert_eq!(out.map_slot, Some(20));
    s.input_buffer_mapped(READER, true);
    let out = s.handle(task(READER, CONSOLE_OP_SET_READER, 0, 21));
    assert!(out.reply.is_none());
    s
}

#[test]
fn console_putchar_goes_through_ansi() {
    let mut s = ConsoleServer::new();
    let out = s.handle(task(5, OP_PUTCHAR, b'x' as u32, 0));
    assert_eq!(out.screen, vec![ScreenOp::PutChar(b'x')]);
    let out = s.handle(task(5, OP_PUTCHAR, 0x1B, 0));
    assert!(out.screen.is_empty());
    let out = s.handle(task(5, OP_PUTCHAR, b'c' as u32, 0));
    assert!(out.screen.is_empty());
}

#[test]
fn console_line_mode_read() {
    let mut s = connected();
    let out = s.handle(task(READER, CONSOLE_OP_READ_LINE, 0, 0));
    assert!(out.reply.is_none());
    let out = s.handle(scancode(0x23));
    assert_eq!(out.screen, vec![ScreenOp::PutChar(b'h')]);
    assert_eq!(out.store, Some((0, b'h')));
    let out = s.handle(scancode(0x17));
    assert_eq!(out.store, Some((1, b'i')));
    let out = s.handle(scancode(0x1C));
    assert_eq!(out.reply, Some((21, 2)));
    assert_eq!(out.store, None);
}

#[test]
fn console_backspace_and_waiting_line() {
    let mut s = connected();
    s.handle(scancode(0x1E));
    s.handle(scancode(0x30));
    let out = s.handle(scancode(0x0E));
    assert_eq!(out.screen, vec![ScreenOp::PutChar(8)]);
    // Enter with no request outstanding leaves the line waiting.
    let out = s.handle(scancode(0x1C));
    assert_eq!(out.reply, None);
    // Keys typed while a line waits are echoed but not stored.
    let out = s.handle(scancode(0x1E));
    assert_eq!(out.store, None);
    let out = s.handle(task(READER, CONSOLE_OP_READ_LINE, 0, 0));
    assert_eq!(out.reply, Some((21, 1)));
}

#[test]
fn console_other_tasks_cannot_take_over() {
    let mut s = connected();
    let out = s.handle(task(INTRUDER, CONSOLE_OP_SET_BUFFER, 0, 30));
    assert_eq!(out.map_slot, None);
    s.handle(task(INTRUDER, CONSOLE_OP_SET_READER, 0, 31));
    let out = s.handle(task(INTRUDER, CONSOLE_OP_READ_LINE, 0, 0));
    assert_eq!(out.reply, None);
    s.handle(task(INTRUDER, CONSOLE_OP_SET_MODE, 1, 0));
    // The reader's line still arrives at the reader's endpoint, in line mode.
    s.handle(task(READER, CONSOLE_OP_READ_LINE, 0, 0));
    s.handle(scancode(0x1E));
    let out = s.handle(scancode(0x1C));
    assert_eq!(out.reply, Some((21, 1)));
    // A non-owner may still print.
    let out = s.handle(task(INTRUDER, OP_PUTCHAR, b'!' as u32, 0));
    assert_eq!(out.screen, vec![ScreenOp::PutChar(b'!')]);
}

#[test]
fn console_read_line_without_buffer_fails() {
    let mut s = ConsoleServer::new();
    s.handle(task(READER, CONSOLE_OP_SET_BUFFER, 0, 20));
    s.input_buffer_mapped(READER, false);
    // Not mapped: no owner yet, so nothing from the reader counts.
    let out = s.handle(task(READER, CONSOLE_OP_READ_LINE, 0, 0));
    assert_eq!(out.reply, None);
}

#[test]
fn console_raw_mode_keys_in_order() {
    let mut s = connected();
    s.handle(task(READER, CONSOLE_OP_SET_MODE, 1, 0));
    let out = s.handle(scancode(0x1E));
    assert!(out.screen.is_empty());
    s.handle(scancode(0xE0));
    s.handle(scancode(0x48));
    let out = s.handle(task(READER, CONSOLE_OP_READ_KEY, 0, 0));
    assert_eq!(out.reply, Some((21, b'a' as u32)));
    let out = s.handle(task(READER, CONSOLE_OP_READ_KEY, 0, 0));
    assert_eq!(out.reply, Some((21, KEY_UP)));
    let out = s.handle(task(READER, CONSOLE_OP_READ_KEY, 0, 0));
    assert_eq!(out.reply, None);
    let out = s.handle(scancode(0x30));
    assert_eq!(out.reply, Some((21, b'b' as u32)));
    // Back to line mode: typed keys echo again.
    s.handle(task(READER, CONSOLE_OP_SET_MODE, 0, 0));
    let out = s.handle(scancode(0x30));
    assert_eq!(out.screen, vec![ScreenOp::PutChar(b'b')]);
}

#[test]
fn console_raw_queue_is_bounded() {
    let mut s = connected();
    s.handle(task(READER, CONSOLE_OP_SET_MODE, 1, 0));
    for _ in 0..40 {
        s.handle(scancode(0x1E));
    }
    let mut got = 0;
    loop {
        let out = s.handle(task(READER, CONSOLE_OP_READ_KEY, 0, 0));
        if out.reply.is_none() {
            break;
        }
        got += 1;
    }
    assert_eq!(got, 32);
}

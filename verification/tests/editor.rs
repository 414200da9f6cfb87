use zephyrlite::console::keyboard::{KEY_DELETE, KEY_DOWN, KEY_END, KEY_HOME, KEY_LEFT, KEY_PAGE_UP, KEY_RIGHT, KEY_UP};
use zephyrlite::editor::{Editor, EDITOR_MAX_BYTES, EDITOR_PAGES, KEY_BACKSPACE, KEY_CTRL_Q, KEY_CTRL_S};
use zephyrlite::ipc::OP_PUTCHAR;

fn editor() -> Editor {
    Editor::new(&[7u32; EDITOR_PAGES]).unwrap()
}

fn type_str(e: &mut Editor, s: &[u8]) {
    for &b in s {
        assert_eq!(e.apply_key(b as u32), None);
    }
}

#[test]
fn new_needs_every_page() {
    assert!(Editor::new(&[1u32; EDITOR_PAGES - 1]).is_none());
    let mut grants = [1u32; EDITOR_PAGES];
    grants[3] = 0;
    assert!(Editor::new(&grants).is_none());
    let e = editor();
    assert!(e.content().is_empty());
    assert_eq!(e.cursor(), 0);
}

#[test]
fn typing_inserts_at_cursor() {
    let mut e = editor();
    type_str(&mut e, b"ac");
    e.apply_key(KEY_LEFT);
    type_str(&mut e, b"b");
    assert_eq!(e.content(), b"abc");
    assert_eq!(e.cursor(), 2);
    // Tabs and newlines are text; other control bytes and special keys are not.
    type_str(&mut e, b"\t\n");
    e.apply_key(0x01);
    e.apply_key(0x7F);
    e.apply_key(KEY_PAGE_UP);
    e.apply_key(0x1234);
    assert_eq!(e.content(), b"ab\t\nc");
    assert_eq!(e.cursor(), 4);
}

#[test]
fn type_then_backspace_restores() {
    let mut e = editor();
    type_str(&mut e, b"hello");
    e.apply_key(KEY_LEFT);
    e.apply_key(KEY_LEFT);
    let before = e.content().to_vec();
    let cur = e.cursor();
    e.apply_key(b'X' as u32);
    e.apply_key(KEY_BACKSPACE);
    assert_eq!(e.content(), &before[..]);
    assert_eq!(e.cursor(), cur);
}

#[test]
fn backspace_and_delete_at_edges() {
    let mut e = editor();
    e.apply_key(KEY_BACKSPACE);
    e.apply_key(KEY_DELETE);
    assert!(e.content().is_empty());
    type_str(&mut e, b"xyz");
    e.apply_key(KEY_DELETE);
    assert_eq!(e.content(), b"xyz");
    e.apply_key(KEY_HOME);
    e.apply_key(KEY_DELETE);
    assert_eq!(e.content(), b"yz");
    assert_eq!(e.cursor(), 0);
    e.apply_key(KEY_BACKSPACE);
    assert_eq!(e.content(), b"yz");
}

#[test]
fn left_right_stay_in_bounds() {
    let mut e = editor();
    type_str(&mut e, b"ab");
    e.apply_key(KEY_RIGHT);
    assert_eq!(e.cursor(), 2);
    e.apply_key(KEY_LEFT);
    e.apply_key(KEY_LEFT);
    e.apply_key(KEY_LEFT);
    assert_eq!(e.cursor(), 0);
}

#[test]
fn home_end_up_down_move_by_lines() {
    let mut e = editor();
    type_str(&mut e, b"first line\nab\nthird");
    assert_eq!(e.cursor(), 19);
    e.apply_key(KEY_HOME);
    assert_eq!(e.cursor(), 14);
    e.apply_key(KEY_END);
    assert_eq!(e.cursor(), 19);
    // Up keeps the column, clamped to the shorter line.
    e.apply_key(KEY_UP);
    assert_eq!(e.cursor(), 13);
    e.apply_key(KEY_UP);
    assert_eq!(e.cursor(), 2);
    e.apply_key(KEY_UP);
    assert_eq!(e.cursor(), 2);
    e.apply_key(KEY_DOWN);
    assert_eq!(e.cursor(), 13);
    e.apply_key(KEY_DOWN);
    assert_eq!(e.cursor(), 16);
    e.apply_key(KEY_DOWN);
    assert_eq!(e.cursor(), 16);
}

#[test]
fn only_ctrl_s_and_ctrl_q_end_editing() {
    let mut e = editor();
    type_str(&mut e, b"text");
    assert_eq!(e.apply_key(KEY_CTRL_S), Some(true));
    assert_eq!(e.apply_key(KEY_CTRL_Q), Some(false));
    assert_eq!(e.content(), b"text");
    for k in [KEY_UP, KEY_DOWN, KEY_LEFT, KEY_RIGHT, KEY_HOME, KEY_END, KEY_DELETE, KEY_BACKSPACE, 0, 0x12, 0x14, 300] {
        assert_eq!(e.apply_key(k), None);
    }
}

#[test]
fn append_loaded_keeps_cursor_and_truncates() {
    let mut e = editor();
    e.append_loaded(b"abc");
    e.append_loaded(b"def");
    assert_eq!(e.content(), b"abcdef");
    assert_eq!(e.cursor(), 0);
    let big = vec![b'x'; EDITOR_MAX_BYTES];
    e.append_loaded(&big);
    assert_eq!(e.content().len(), EDITOR_MAX_BYTES);
    // A full buffer takes no more typing.
    e.apply_key(b'y' as u32);
    assert_eq!(e.content().len(), EDITOR_MAX_BYTES);
    assert_eq!(e.content()[0], b'a');
}

#[test]
fn redraw_prints_text_then_places_cursor() {
    let mut e = editor();
    type_str(&mut e, b"ab\ncde");
    e.apply_key(KEY_LEFT);
    let msgs = e.redraw(4);
    assert!(msgs.iter().all(|m| m.dest_slot == 4 && m.w0 == OP_PUTCHAR && m.w2 == 0 && m.transfer_slot == 0));
    let bytes: Vec<u8> = msgs.iter().map(|m| m.w1 as u8).collect();
    assert_eq!(bytes, b"\x1b[2J\x1b[Hab\ncde\x1b[2;3H".to_vec());
}

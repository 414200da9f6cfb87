//! A minimal full-screen text editor's core: a cursor-tracked in-memory
//! buffer of at most `EDITOR_MAX_BYTES` bytes, the effect of each decoded
//! key on it, and the screen redraw. There is no scrolling viewport: the
//! redraw prints the whole buffer from the top of the screen.
use vstd::prelude::*;
use crate::console::keyboard::{KEY_DELETE, KEY_DOWN, KEY_END, KEY_HOME, KEY_LEFT, KEY_RIGHT, KEY_UP};
use crate::ipc::{Message, print, push_decimal, putchars, decimal};

verus! {

pub const EDITOR_PAGES: usize = 16;
pub const PAGE_SIZE: usize = 4096;
pub const EDITOR_MAX_BYTES: usize = 65536;
/// Ctrl-S and Ctrl-Q as the keyboard decoder reports them.
pub const KEY_CTRL_S: u32 = 0x13;
pub const KEY_CTRL_Q: u32 = 0x11;
pub const KEY_BACKSPACE: u32 = 8;
pub const NEWLINE: u8 = 0x0A;

/// The editor's state as values: the text and the cursor position in it.
pub struct EditorModel {
    pub content: Seq<u8>,
    pub cursor: nat,
}

pub struct Editor {
    buf: Vec<u8>,
    cursor: usize,
}

/// Start of the line holding position `pos` of `s`: the nearest position
/// at or before `pos` that is the start of `s` or follows a newline.
pub open spec fn line_start_spec(s: Seq<u8>, pos: int) -> int
    decreases pos,
{
    if pos <= 0 {
        0
    } else if s[pos - 1] == NEWLINE {
        pos
    } else {
        line_start_spec(s, pos - 1)
    }
}

/// End of the line holding position `pos` of `s`: the nearest newline at or
/// after `pos`, or the end of `s`.
pub open spec fn line_end_spec(s: Seq<u8>, pos: int) -> int
    decreases s.len() - pos,
{
    if pos >= s.len() {
        s.len() as int
    } else if s[pos] == NEWLINE {
        pos
    } else {
        line_end_spec(s, pos + 1)
    }
}

/// A byte the editor accepts as text: newline, tab, space and printable
/// ASCII.
pub open spec fn is_text_byte(b: u8) -> bool {
    b == NEWLINE || b == 9 || (0x20 <= b <= 0x7E)
}

pub open spec fn min(a: int, b: int) -> int {
    if a < b { a } else { b }
}

/// The editor after `key`, and what `apply_key` returns: `Some(true)` to
/// save and quit, `Some(false)` to quit without saving, `None` to go on.
pub open spec fn apply_key_spec(m: EditorModel, key: u32) -> (EditorModel, Option<bool>) {
    let s = m.content;
    let c = m.cursor as int;
    if key == KEY_CTRL_S {
        (m, Some(true))
    } else if key == KEY_CTRL_Q {
        (m, Some(false))
    } else if key == KEY_LEFT {
        (EditorModel { cursor: if c > 0 { (c - 1) as nat } else { 0 }, ..m }, None)
    } else if key == KEY_RIGHT {
        (EditorModel { cursor: min(c + 1, s.len() as int) as nat, ..m }, None)
    } else if key == KEY_HOME {
        (EditorModel { cursor: line_start_spec(s, c) as nat, ..m }, None)
    } else if key == KEY_END {
        (EditorModel { cursor: line_end_spec(s, c) as nat, ..m }, None)
    } else if key == KEY_UP {
        let cur_start = line_start_spec(s, c);
        if cur_start > 0 {
            let prev_start = line_start_spec(s, cur_start - 1);
            let prev_len = cur_start - 1 - prev_start;
            (EditorModel { cursor: (prev_start + min(c - cur_start, prev_len)) as nat, ..m }, None)
        } else {
            (m, None)
        }
    } else if key == KEY_DOWN {
        let cur_start = line_start_spec(s, c);
        let cur_end = line_end_spec(s, c);
        if cur_end < s.len() {
            let next_start = cur_end + 1;
            let next_len = line_end_spec(s, next_start) - next_start;
            (EditorModel { cursor: (next_start + min(c - cur_start, next_len)) as nat, ..m }, None)
        } else {
            (m, None)
        }
    } else if key == KEY_DELETE {
        if c < s.len() {
            (EditorModel { content: s.remove(c), ..m }, None)
        } else {
            (m, None)
        }
    } else if key == KEY_BACKSPACE {
        if c > 0 {
            (EditorModel { content: s.remove(c - 1), cursor: (c - 1) as nat }, None)
        } else {
            (m, None)
        }
    } else if key <= 255 && is_text_byte(key as u8) {
        if s.len() < EDITOR_MAX_BYTES {
            (EditorModel { content: s.insert(c, key as u8), cursor: (c + 1) as nat }, None)
        } else {
            (m, None)
        }
    } else {
        (m, None)
    }
}

/// Number of newlines in `s`.
pub open spec fn count_newlines(s: Seq<u8>) -> nat
    decreases s.len(),
{
    if s.len() == 0 {
        0
    } else {
        count_newlines(s.drop_last()) + if s.last() == NEWLINE { 1nat } else { 0nat }
    }
}

/// The bytes a redraw sends to the console: clear the screen, home the
/// cursor, the whole text, then a cursor-position escape to the 1-based
/// row and column of the editing cursor.
pub open spec fn redraw_bytes(m: EditorModel) -> Seq<u8> {
    let cur_start = line_start_spec(m.content, m.cursor as int);
    let row = count_newlines(m.content.take(cur_start));
    let col = (m.cursor - cur_start) as nat;
    seq![0x1Bu8, 0x5B, 0x32, 0x4A, 0x1B, 0x5B, 0x48] + m.content + seq![0x1Bu8, 0x5B] + decimal(row + 1) + seq![0x3Bu8]
        + decimal(col + 1) + seq![0x48u8]
}

/// `line_start_spec` lies within `[0, pos]`.
pub proof fn lemma_line_start_bounds(s: Seq<u8>, pos: int)
    requires
        0 <= pos <= s.len(),
    ensures
        0 <= line_start_spec(s, pos) <= pos,
    decreases pos,
{
    if pos > 0 && s[pos - 1] != NEWLINE {
        lemma_line_start_bounds(s, pos - 1);
    }
}

/// `line_end_spec` lies within `[pos, len]`.
pub proof fn lemma_line_end_bounds(s: Seq<u8>, pos: int)
    requires
        0 <= pos <= s.len(),
    ensures
        pos <= line_end_spec(s, pos) <= s.len(),
    decreases s.len() - pos,
{
    if pos < s.len() && s[pos] != NEWLINE {
        lemma_line_end_bounds(s, pos + 1);
    }
}

/// Typing a text byte and then Backspace gives back exactly the editor one
/// started with (text and cursor), as long as the text was not full.
pub proof fn lemma_type_then_backspace(m: EditorModel, byte: u8)
    requires
        m.cursor <= m.content.len() < EDITOR_MAX_BYTES,
        is_text_byte(byte),
    ensures
        apply_key_spec(apply_key_spec(m, byte as u32).0, KEY_BACKSPACE).0 == m,
{
    let m1 = apply_key_spec(m, byte as u32).0;
    assert(m1.content == m.content.insert(m.cursor as int, byte));
    assert(m1.content.remove(m.cursor as int) =~= m.content);
}

/// Ctrl-S and Ctrl-Q end editing and leave text and cursor untouched;
/// every other key keeps editing.
pub proof fn lemma_only_quit_keys_end_editing(m: EditorModel, key: u32)
    ensures
        apply_key_spec(m, key).1 is Some <==> (key == KEY_CTRL_S || key == KEY_CTRL_Q),
        key == KEY_CTRL_S ==> apply_key_spec(m, key) == (m, Some(true)),
        key == KEY_CTRL_Q ==> apply_key_spec(m, key) == (m, Some(false)),
{
}

/// Home and End keep the cursor on its own line: Home moves it to the
/// line's start, at or before it, End to the line's end, at or after it.
pub proof fn lemma_home_end_bounds(m: EditorModel)
    requires
        m.cursor <= m.content.len(),
    ensures
        apply_key_spec(m, KEY_HOME).0.cursor <= m.cursor,
        m.cursor <= apply_key_spec(m, KEY_END).0.cursor <= m.content.len(),
        apply_key_spec(m, KEY_HOME).0.content == m.content,
        apply_key_spec(m, KEY_END).0.content == m.content,
{
    lemma_line_start_bounds(m.content, m.cursor as int);
    lemma_line_end_bounds(m.content, m.cursor as int);
}

/// Home goes to the start of the cursor's line: no line break lies
/// between the new cursor and the old one, and the new cursor is at the
/// start of the text or just after a line break.
pub proof fn lemma_home_finds_line_start(s: Seq<u8>, pos: int)
    requires
        0 <= pos <= s.len(),
    ensures
        ({
            let h = line_start_spec(s, pos);
            &&& 0 <= h <= pos
            &&& forall|i: int| h <= i < pos ==> s[i] != 0x0Au8
            &&& h == 0 || s[h - 1] == 0x0Au8
        }),
    decreases pos,
{
    if pos > 0 && s[pos - 1] != NEWLINE {
        lemma_home_finds_line_start(s, pos - 1);
    }
}

/// End goes to the end of the cursor's line: no line break lies between
/// the old cursor and the new one, and the new cursor is at the end of the
/// text or on a line break.
pub proof fn lemma_end_finds_line_end(s: Seq<u8>, pos: int)
    requires
        0 <= pos <= s.len(),
    ensures
        ({
            let e = line_end_spec(s, pos);
            &&& pos <= e <= s.len()
            &&& forall|i: int| pos <= i < e ==> s[i] != 0x0Au8
            &&& e == s.len() || s[e] == 0x0Au8
        }),
    decreases s.len() - pos,
{
    if pos < s.len() && s[pos] != NEWLINE {
        lemma_end_finds_line_end(s, pos + 1);
    }
}

/// The cursor keys and Delete: Left moves the cursor one byte back (not
/// before the start), Right one byte on (not past the end), Home and End to
/// the start and end of the cursor's line, none of them changing the text;
/// Delete removes the byte under the cursor (nothing at the end) and keeps
/// the cursor; Backspace removes the byte before it and moves back onto its
/// place (nothing at the start).
pub proof fn lemma_cursor_keys(m: EditorModel)
    requires
        m.cursor <= m.content.len(),
    ensures
        ({
            let s = m.content;
            let c = m.cursor as int;
            let h = apply_key_spec(m, 260).0.cursor as int;
            let e = apply_key_spec(m, 261).0.cursor as int;
            &&& apply_key_spec(m, 258) == (EditorModel { cursor: (if c == 0 { 0 } else { c - 1 }) as nat, ..m }, None::<bool>)
            &&& apply_key_spec(m, 259) == (EditorModel { cursor: (if c == s.len() { c } else { c + 1 }) as nat, ..m }, None::<bool>)
            &&& apply_key_spec(m, 260).0.content == s && apply_key_spec(m, 261).0.content == s
            &&& 0 <= h <= c && (h == 0 || s[h - 1] == 0x0Au8) && (forall|i: int| h <= i < c ==> s[i] != 0x0Au8)
            &&& c <= e <= s.len() && (e == s.len() || s[e] == 0x0Au8) && (forall|i: int| c <= i < e ==> s[i] != 0x0Au8)
            &&& c < s.len() ==> apply_key_spec(m, 262).0 == EditorModel { content: s.subrange(0, c) + s.subrange(c + 1, s.len() as int), cursor: m.cursor }
            &&& c == s.len() ==> apply_key_spec(m, 262).0 == m
            &&& c > 0 ==> apply_key_spec(m, 8).0 == EditorModel { content: s.subrange(0, c - 1) + s.subrange(c, s.len() as int), cursor: (c - 1) as nat }
            &&& c == 0 ==> apply_key_spec(m, 8).0 == m
        }),
{
    let s = m.content;
    let c = m.cursor as int;
    lemma_home_finds_line_start(s, c);
    lemma_end_finds_line_end(s, c);
    if c < s.len() {
        assert(s.remove(c) =~= s.subrange(0, c) + s.subrange(c + 1, s.len() as int));
    }
    if c > 0 {
        assert(s.remove(c - 1) =~= s.subrange(0, c - 1) + s.subrange(c, s.len() as int));
    }
}

impl Editor {
    /// The editor's invariant: the cursor never passes the end of the
    /// text, and the text never exceeds `EDITOR_MAX_BYTES`.
    pub closed spec fn wf(&self) -> bool {
        &&& self.cursor <= self.buf@.len()
        &&& self.buf@.len() <= EDITOR_MAX_BYTES
    }

    pub closed spec fn view(&self) -> EditorModel {
        EditorModel { content: self.buf@, cursor: self.cursor as nat }
    }

    /// An empty editor, given the grants of the `EDITOR_PAGES` pages
    /// allocated for its buffer (`0` = an allocation that failed); `None`
    /// unless every page was allocated.
    pub fn new(page_grants: &[u32]) -> (r: Option<Editor>)
        ensures
            r is Some <==> (page_grants@.len() == EDITOR_PAGES && forall|i: int|
                0 <= i < page_grants@.len() ==> page_grants@[i] != 0),
            r matches Some(e) ==> e.wf() && e.view().content.len() == 0 && e.view().cursor == 0,
    {
        if page_grants.len() != EDITOR_PAGES {
            return None;
        }
        let mut i: usize = 0;
        while i < page_grants.len()
            invariant
                i <= page_grants@.len(),
                forall|j: int| 0 <= j < i ==> page_grants@[j] != 0,
            decreases page_grants@.len() - i,
        {
            if page_grants[i] == 0 {
                return None;
            }
            i = i + 1;
        }
        Some(Editor { buf: Vec::new(), cursor: 0 })
    }

    /// Empties the text and puts the cursor at its start, keeping the
    /// editor's buffer for the next session.
    pub fn reset(&mut self)
        requires
            old(self).wf(),
        ensures
            final(self).wf(),
            final(self).view() == (EditorModel { content: Seq::empty(), cursor: 0 }),
    {
        self.buf.clear();
        self.cursor = 0;
    }

    /// The text.
    pub fn content(&self) -> (r: &[u8])
        ensures
            r@ == self.view().content,
            self.wf() ==> self.view().cursor <= r@.len() <= EDITOR_MAX_BYTES,
    {
        self.buf.as_slice()
    }

    /// The cursor's position in the text.
    pub fn cursor(&self) -> (r: usize)
        requires
            self.wf(),
        ensures
            r == self.view().cursor,
            r <= self.view().content.len() <= EDITOR_MAX_BYTES,
    {
        self.cursor
    }

    /// Appends `data` at the end of the text (used while loading a file a
    /// sector at a time), silently truncated at `EDITOR_MAX_BYTES`. The
    /// cursor does not move.
    pub fn append_loaded(&mut self, data: &[u8])
        requires
            old(self).wf(),
        ensures
            final(self).wf(),
            final(self).view().content == old(self).view().content + data@.take(
                min(data@.len() as int, EDITOR_MAX_BYTES - old(self).view().content.len()),
            ),
            final(self).view().cursor == old(self).view().cursor,
    {
        let room = EDITOR_MAX_BYTES - self.buf.len();
        let n = if data.len() < room { data.len() } else { room };
        let ghost old_buf = self.buf@;
        let mut i: usize = 0;
        while i < n
            invariant
                n <= data@.len(),
                old_buf.len() + n <= EDITOR_MAX_BYTES,
                self.cursor <= old_buf.len(),
                self.cursor == old(self).cursor,
                i <= n,
                self.buf@ == old_buf + data@.take(i as int),
            decreases n - i,
        {
            self.buf.push(data[i]);
            i = i + 1;
            assert(self.buf@ =~= old_buf + data@.take(i as int));
        }
    }

    /// Start of the line holding position `pos`.
    fn line_start(&self, pos: usize) -> (r: usize)
        requires
            self.wf(),
            pos <= self.view().content.len(),
        ensures
            r == line_start_spec(self.view().content, pos as int),
    {
        let mut i = pos;
        while i > 0 && self.buf[i - 1] != NEWLINE
            invariant
                i <= pos <= self.buf@.len(),
                line_start_spec(self.buf@, i as int) == line_start_spec(self.buf@, pos as int),
            decreases i,
        {
            i = i - 1;
        }
        i
    }

    /// End of the line holding position `pos`.
    fn line_end(&self, pos: usize) -> (r: usize)
        requires
            self.wf(),
            pos <= self.view().content.len(),
        ensures
            r == line_end_spec(self.view().content, pos as int),
    {
        let mut i = pos;
        while i < self.buf.len() && self.buf[i] != NEWLINE
            invariant
                pos <= i <= self.buf@.len(),
                line_end_spec(self.buf@, i as int) == line_end_spec(self.buf@, pos as int),
            decreases self.buf@.len() - i,
        {
            i = i + 1;
        }
        i
    }

    /// Inserts `byte` at the cursor and moves past it, unless the text is
    /// already full.
    fn insert_byte(&mut self, byte: u8)
        requires
            old(self).wf(),
        ensures
            final(self).wf(),
            old(self).view().content.len() < EDITOR_MAX_BYTES ==> final(self).view() == (EditorModel {
                content: old(self).view().content.insert(old(self).view().cursor as int, byte),
                cursor: old(self).view().cursor + 1,
            }),
            old(self).view().content.len() >= EDITOR_MAX_BYTES ==> final(self).view() == old(self).view(),
    {
        if self.buf.len() >= EDITOR_MAX_BYTES {
            return;
        }
        let c = self.cursor;
        self.buf.insert(c, byte);
        self.cursor = c + 1;
    }

    /// Deletes the byte before the cursor and moves back over it, if there
    /// is one.
    fn backspace(&mut self)
        requires
            old(self).wf(),
        ensures
            final(self).wf(),
            old(self).view().cursor > 0 ==> final(self).view() == (EditorModel {
                content: old(self).view().content.remove(old(self).view().cursor - 1),
                cursor: (old(self).view().cursor - 1) as nat,
            }),
            old(self).view().cursor == 0 ==> final(self).view() == old(self).view(),
    {
        if self.cursor == 0 {
            return;
        }
        let c = self.cursor;
        self.buf.remove(c - 1);
        self.cursor = c - 1;
    }

    /// Deletes the byte at the cursor, if there is one.
    fn delete_forward(&mut self)
        requires
            old(self).wf(),
        ensures
            final(self).wf(),
            old(self).view().cursor < old(self).view().content.len() ==> final(self).view() == (EditorModel {
                content: old(self).view().content.remove(old(self).view().cursor as int),
                cursor: old(self).view().cursor,
            }),
            old(self).view().cursor >= old(self).view().content.len() ==> final(self).view() == old(self).view(),
    {
        if self.cursor >= self.buf.len() {
            return;
        }
        let c = self.cursor;
        self.buf.remove(c);
    }

    /// Applies one decoded key. Returns `Some(true)` to save and quit
    /// (Ctrl-S), `Some(false)` to quit without saving (Ctrl-Q), `None` to
    /// keep editing.
    pub fn apply_key(&mut self, key: u32) -> (r: Option<bool>)
        requires
            old(self).wf(),
        ensures
            final(self).wf(),
            (final(self).view(), r) == apply_key_spec(old(self).view(), key),
    {
        proof {
            lemma_line_start_bounds(self.buf@, self.cursor as int);
            lemma_line_end_bounds(self.buf@, self.cursor as int);
        }
        let ghost m = self.view();
        if key == KEY_CTRL_S {
            return Some(true);
        } else if key == KEY_CTRL_Q {
            return Some(false);
        } else if key == KEY_LEFT {
            self.cursor = self.cursor.saturating_sub(1);
        } else if key == KEY_RIGHT {
            let c = self.cursor + 1;
            self.cursor = if c < self.buf.len() { c } else { self.buf.len() };
        } else if key == KEY_HOME {
            self.cursor = self.line_start(self.cursor);
        } else if key == KEY_END {
            self.cursor = self.line_end(self.cursor);
        } else if key == KEY_UP {
            let cur_start = self.line_start(self.cursor);
            let col = self.cursor - cur_start;
            if cur_start > 0 {
                let prev_end = cur_start - 1;
                proof {
                    lemma_line_start_bounds(self.buf@, prev_end as int);
                }
                let prev_start = self.line_start(prev_end);
                let prev_len = prev_end - prev_start;
                self.cursor = prev_start + if col < prev_len { col } else { prev_len };
            }
        } else if key == KEY_DOWN {
            let cur_start = self.line_start(self.cursor);
            let col = self.cursor - cur_start;
            let cur_end = self.line_end(self.cursor);
            if cur_end < self.buf.len() {
                let next_start = cur_end + 1;
                proof {
                    lemma_line_end_bounds(self.buf@, next_start as int);
                }
                let next_end = self.line_end(next_start);
                let next_len = next_end - next_start;
                self.cursor = next_start + if col < next_len { col } else { next_len };
            }
        } else if key == KEY_DELETE {
            self.delete_forward();
        } else if key == KEY_BACKSPACE {
            self.backspace();
        } else if key <= 255 {
            let byte = key as u8;
            if byte == NEWLINE || byte == 9 || (0x21 <= byte && byte <= 0x7E) || byte == 0x20 {
                self.insert_byte(byte);
            }
        }
        None
    }

    /// The console messages of a redraw: clear the screen, print the whole
    /// text from the top, then put the cursor at the editing position.
    pub fn redraw(&self, console_slot: u32) -> (r: Vec<Message>)
        requires
            self.wf(),
        ensures
            r@ == putchars(console_slot, redraw_bytes(self.view())),
    {
        let mut out: Vec<u8> = Vec::new();
        out.push(0x1B);
        out.push(0x5B);
        out.push(0x32);
        out.push(0x4A);
        out.push(0x1B);
        out.push(0x5B);
        out.push(0x48);
        let mut i: usize = 0;
        let ghost head = out@;
        while i < self.buf.len()
            invariant
                i <= self.buf@.len(),
                out@ == head + self.buf@.take(i as int),
            decreases self.buf@.len() - i,
        {
            out.push(self.buf[i]);
            i = i + 1;
            assert(out@ =~= head + self.buf@.take(i as int));
        }
        assert(self.buf@.take(i as int) =~= self.buf@);
        let cur_start = self.line_start(self.cursor);
        proof {
            lemma_line_start_bounds(self.buf@, self.cursor as int);
        }
        let mut row: usize = 0;
        let mut j: usize = 0;
        while j < cur_start
            invariant
                j <= cur_start <= self.buf@.len(),
                row == count_newlines(self.buf@.take(j as int)),
                row <= j,
            decreases cur_start - j,
        {
            proof {
                assert(self.buf@.take(j + 1).drop_last() =~= self.buf@.take(j as int));
            }
            if self.buf[j] == NEWLINE {
                row = row + 1;
            }
            j = j + 1;
        }
        let col = self.cursor - cur_start;
        out.push(0x1B);
        out.push(0x5B);
        push_decimal(&mut out, (row + 1) as u32);
        out.push(0x3B);
        push_decimal(&mut out, (col + 1) as u32);
        out.push(0x48);
        assert(out@ =~= redraw_bytes(self.view()));
        print(console_slot, out.as_slice())
    }
}

} // verus!

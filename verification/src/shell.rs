//! The shell's decisions: splitting a typed line into a command and its
//! argument, which command that is, which program images `run` accepts,
//! and the full-screen `edit` session as a sequence of steps (load the
//! file a sector at a time, hand keys to the editor, save it back). The
//! caller performs the messages each step asks for and hands back the
//! replies.
use vstd::prelude::*;
use vstd::slice::slice_subrange;
use vstd::string::StringSliceAdditionalSpecFns;
use crate::editor::{apply_key_spec, min, redraw_bytes, Editor, EditorModel, EDITOR_MAX_BYTES, NEWLINE, PAGE_SIZE};
use crate::ipc::{
    console_read_key, console_set_mode, decimal, fs_open, fs_open_for_write, fs_read, fs_truncate, fs_write, msg,
    open_sends, print, print_u32, putchars, Message, RecvResult, CONSOLE_OP_READ_KEY, CONSOLE_OP_SET_MODE, FS_OP_READ, FS_OP_TRUNCATE,
    FS_OP_WRITE,
};

verus! {

pub const SPACE: u8 = 0x20;
/// The largest program image `run` loads (one page).
pub const RUN_MAX_SIZE: u32 = 4096;

/// Index of the first space in `s` at or after `i`.
pub open spec fn first_space_from(s: Seq<u8>, i: int) -> Option<int>
    decreases s.len() - i,
{
    if i < 0 || i >= s.len() {
        None
    } else if s[i] == SPACE {
        Some(i)
    } else {
        first_space_from(s, i + 1)
    }
}

proof fn lemma_first_space_range(s: Seq<u8>, i: int)
    requires
        0 <= i,
    ensures
        first_space_from(s, i) matches Some(k) ==> i <= k < s.len() && s[k] == SPACE,
    decreases s.len() - i,
{
    if i < s.len() && s[i] != SPACE {
        lemma_first_space_range(s, i + 1);
    }
}

/// Splits a typed line at its first space into the command and the rest
/// (the argument); a line without a space is all command.
pub fn split_command(line: &[u8]) -> (r: (&[u8], &[u8]))
    ensures
        match first_space_from(line@, 0) {
            Some(i) => r.0@ == line@.take(i) && r.1@ == line@.skip(i + 1),
            None => r.0@ == line@ && r.1@.len() == 0,
        },
{
    proof {
        lemma_first_space_range(line@, 0);
    }
    let mut i: usize = 0;
    while i < line.len()
        invariant
            i <= line@.len(),
            first_space_from(line@, 0) == first_space_from(line@, i as int),
        decreases line@.len() - i,
    {
        if line[i] == SPACE {
            let cmd = slice_subrange(line, 0, i);
            let arg = slice_subrange(line, i + 1, line.len());
            assert(arg@ =~= line@.skip(i + 1));
            return (cmd, arg);
        }
        i = i + 1;
    }
    let empty = slice_subrange(line, line.len(), line.len());
    (line, empty)
}

/// The shell's commands.
#[derive(Clone, Copy, Debug, PartialEq, Eq, Structural)]
pub enum ShellCommand {
    Help,
    Read,
    Run,
    Edit,
    /// An empty line.
    Empty,
    /// Anything else.
    Unknown,
}

/// The command a word names.
pub open spec fn command_spec(word: Seq<u8>) -> ShellCommand {
    if word == seq![0x68u8, 0x65, 0x6C, 0x70] {
        ShellCommand::Help
    } else if word == seq![0x72u8, 0x65, 0x61, 0x64] {
        ShellCommand::Read
    } else if word == seq![0x72u8, 0x75, 0x6E] {
        ShellCommand::Run
    } else if word == seq![0x65u8, 0x64, 0x69, 0x74] {
        ShellCommand::Edit
    } else if word.len() == 0 {
        ShellCommand::Empty
    } else {
        ShellCommand::Unknown
    }
}

fn word_is(w: &[u8], expected: &[u8]) -> (r: bool)
    ensures
        r == (w@ == expected@),
{
    if w.len() != expected.len() {
        return false;
    }
    let mut i: usize = 0;
    while i < w.len()
        invariant
            w@.len() == expected@.len(),
            i <= w@.len(),
            forall|j: int| 0 <= j < i ==> w@[j] == expected@[j],
        decreases w@.len() - i,
    {
        if w[i] != expected[i] {
            return false;
        }
        i = i + 1;
    }
    assert(w@ =~= expected@);
    true
}

/// Which command `word` (`help`, `read`, `run` or `edit`) names.
pub fn classify_command(word: &[u8]) -> (r: ShellCommand)
    ensures
        r == command_spec(word@),
{
    let help: [u8; 4] = [0x68, 0x65, 0x6C, 0x70];
    let read: [u8; 4] = [0x72, 0x65, 0x61, 0x64];
    let run: [u8; 3] = [0x72, 0x75, 0x6E];
    let edit: [u8; 4] = [0x65, 0x64, 0x69, 0x74];
    assert(help@ =~= seq![0x68u8, 0x65, 0x6C, 0x70]);
    assert(read@ =~= seq![0x72u8, 0x65, 0x61, 0x64]);
    assert(run@ =~= seq![0x72u8, 0x75, 0x6E]);
    assert(edit@ =~= seq![0x65u8, 0x64, 0x69, 0x74]);
    if word_is(word, help.as_slice()) {
        ShellCommand::Help
    } else if word_is(word, read.as_slice()) {
        ShellCommand::Read
    } else if word_is(word, run.as_slice()) {
        ShellCommand::Run
    } else if word_is(word, edit.as_slice()) {
        ShellCommand::Edit
    } else if word.len() == 0 {
        ShellCommand::Empty
    } else {
        ShellCommand::Unknown
    }
}

/// Whether `run` loads a program image of `size` bytes: a non-empty one
/// that fits in one page.
pub fn run_image_size_ok(size: u32) -> (r: bool)
    ensures
        r == (0 < size <= RUN_MAX_SIZE),
{
    size != 0 && size <= RUN_MAX_SIZE
}

// ---------------------------------------------------------------------
// Loading a file for `read` and `run`.
// ---------------------------------------------------------------------

pub const READ_NOT_FOUND: &'static str = "read: not found\n";
pub const RUN_NOT_FOUND: &'static str = "run: not found\n";
pub const RUN_BAD_SIZE: &'static str = "run: unsupported size\n";
pub const RUN_SHORT_READ: &'static str = "run: short read\n";
pub const RUN_SPAWN_FAILED: &'static str = "run: spawn failed\n";
pub const RUN_SPAWNED: &'static str = "run: spawned task ";

/// Where a `read` or `run` load is.
#[derive(Clone, Copy, Debug, PartialEq, Eq, Structural)]
pub enum LoadPhase {
    /// Waiting for the open reply.
    Opening,
    /// Waiting for a read reply.
    Reading,
    Done,
}

/// How a `read` or `run` load ended.
#[derive(Clone, Copy, Debug, PartialEq, Eq, Structural)]
pub enum LoadOutcome {
    /// The file could not be opened.
    NotFound,
    /// `run` only: the image is empty or larger than one page.
    UnsupportedSize,
    /// `run` only: a read moved nothing before the whole image was in.
    ShortRead,
    /// `read` only: the file has been printed.
    Done,
    /// `run` only: the whole image of this many bytes is in the run page;
    /// spawn it.
    Spawn(u32),
}

/// A load's state as values: the endpoints, whether it is `run` (else
/// `read`), its phase, the file's size and how far reading has got.
pub struct LoadModel {
    pub console: u32,
    pub fs: u32,
    pub inbox: u32,
    pub run: bool,
    pub phase: LoadPhase,
    pub size: nat,
    pub offset: nat,
}

/// What one load step asks for, as values: the messages to send in order
/// (after copying the shared file buffer's first `n` bytes to offset
/// `at` of the run page, for `copy == Some((at, n))`), where to wait for
/// the reply (`None`: the load is over), and how it ended, once it has.
pub type LoadStepView = (Seq<Message>, Option<u32>, Option<(u32, u32)>, Option<LoadOutcome>);

/// Bytes asked for by each read: a sector for `read`, and for `run` a
/// sector or what is left of the image if that is less.
pub open spec fn load_want(m: LoadModel) -> int {
    if m.run { chunk(m.size - m.offset) } else { CHUNK as int }
}

/// Bytes a read reply of `w0` hands over: for `read`, at most the shared
/// page the file server fills; for `run`, at most what still fits in the
/// run page after the current offset.
pub open spec fn load_take(m: LoadModel, w0: u32) -> int {
    if m.run { min(w0 as int, RUN_MAX_SIZE - m.offset) } else { min(w0 as int, PAGE_SIZE as int) }
}

/// Starting a load of `name`: the open request (no creation), answered on
/// `inbox`.
pub open spec fn load_begin_spec(console: u32, fs: u32, inbox: u32, name: Seq<u8>, run: bool) -> (LoadModel, LoadStepView) {
    (
        LoadModel { console, fs, inbox, run, phase: LoadPhase::Opening, size: 0, offset: 0 },
        (open_sends(fs, name, false), Some(inbox), None, None),
    )
}

/// The next read, or the end once `offset` has reached the size: `read`
/// prints a newline and is done, `run` spawns the image.
pub open spec fn load_next_spec(m: LoadModel) -> (LoadModel, LoadStepView) {
    if m.offset < m.size {
        (
            LoadModel { phase: LoadPhase::Reading, ..m },
            (seq![msg(m.fs, FS_OP_READ, m.offset as u32, load_want(m) as u32, 0)], Some(m.inbox), None, None),
        )
    } else if m.run {
        (LoadModel { phase: LoadPhase::Done, ..m }, (Seq::empty(), None, None, Some(LoadOutcome::Spawn(m.size as u32))))
    } else {
        (LoadModel { phase: LoadPhase::Done, ..m }, (putchars(m.console, seq![NEWLINE]), None, None, Some(LoadOutcome::Done)))
    }
}

/// The load ends after sending `sends`.
pub open spec fn load_end(m: LoadModel, sends: Seq<Message>, outcome: LoadOutcome) -> (LoadModel, LoadStepView) {
    (LoadModel { phase: LoadPhase::Done, ..m }, (sends, None, None, Some(outcome)))
}

/// What a load does with reply `r`, the shared file buffer holding `buf`.
/// - Opening: a failed open prints "not found"; for `run`, an empty image
///   or one larger than a page prints "unsupported size"; otherwise
///   reading starts at offset 0.
/// - Reading: a reply of `n` bytes (`load_take`) is printed (`read`) or
///   copied to the run page at the current offset (`run`), and the offset
///   moves `n` bytes on (at most to the size). A reply of no bytes ends
///   the load: `read` prints a newline and is done, `run` prints "short
///   read".
pub open spec fn load_step_spec(m: LoadModel, r: RecvResult, buf: Seq<u8>) -> (LoadModel, LoadStepView) {
    match m.phase {
        LoadPhase::Opening => if r.w0 != 1 {
            load_end(
                m,
                putchars(m.console, if m.run { RUN_NOT_FOUND.spec_bytes() } else { READ_NOT_FOUND.spec_bytes() }),
                LoadOutcome::NotFound,
            )
        } else if m.run && !(0 < r.w1 <= RUN_MAX_SIZE) {
            load_end(m, putchars(m.console, RUN_BAD_SIZE.spec_bytes()), LoadOutcome::UnsupportedSize)
        } else {
            load_next_spec(LoadModel { size: r.w1 as nat, offset: 0, ..m })
        },
        LoadPhase::Reading => {
            let n = load_take(m, r.w0);
            if n == 0 {
                if m.run {
                    load_end(m, putchars(m.console, RUN_SHORT_READ.spec_bytes()), LoadOutcome::ShortRead)
                } else {
                    load_end(m, putchars(m.console, seq![NEWLINE]), LoadOutcome::Done)
                }
            } else {
                let (m2, (sends, wait, _, outcome)) = load_next_spec(
                    LoadModel { offset: min(m.offset + n, m.size as int) as nat, ..m },
                );
                if m.run {
                    (m2, (sends, wait, Some((m.offset as u32, n as u32)), outcome))
                } else {
                    (m2, (putchars(m.console, buf.take(n)) + sends, wait, None, outcome))
                }
            }
        },
        LoadPhase::Done => (m, (Seq::empty(), None, None, None)),
    }
}

/// What one load step asks the caller to do (see `LoadStepView`).
pub struct LoadStep {
    pub sends: Vec<Message>,
    pub reply_on: Option<u32>,
    pub copy: Option<(u32, u32)>,
    pub outcome: Option<LoadOutcome>,
}

impl LoadStep {
    pub open spec fn view(&self) -> LoadStepView {
        (self.sends@, self.reply_on, self.copy, self.outcome)
    }
}

/// One `read <FILE>` (print the file) or `run <FILE>` (load a one-page
/// program image) against the filesystem, a sector at a time.
pub struct LoadSession {
    pub console_slot: u32,
    pub fs_slot: u32,
    pub my_inbox: u32,
    pub run: bool,
    pub phase: LoadPhase,
    pub size: u32,
    pub offset: u32,
}

impl LoadSession {
    pub open spec fn view(&self) -> LoadModel {
        LoadModel {
            console: self.console_slot,
            fs: self.fs_slot,
            inbox: self.my_inbox,
            run: self.run,
            phase: self.phase,
            size: self.size as nat,
            offset: self.offset as nat,
        }
    }

    /// While reading, part of the file is still to come, and a program
    /// image fits in the run page.
    pub open spec fn wf(&self) -> bool {
        &&& self.phase == LoadPhase::Reading ==> self.offset < self.size
        &&& self.phase == LoadPhase::Reading && self.run ==> self.size <= RUN_MAX_SIZE
    }

    /// Starts loading `name` from the filesystem at `fs` (replies on
    /// `my_inbox`), printing on the console at `console`; `run` selects
    /// `run` rather than `read`.
    pub fn begin(console: u32, fs: u32, my_inbox: u32, name: &[u8], run: bool) -> (r: (LoadSession, LoadStep))
        ensures
            r.0.wf(),
            (r.0@, r.1@) == load_begin_spec(console, fs, my_inbox, name@, run),
    {
        let open = fs_open(fs, my_inbox, name);
        (
            LoadSession { console_slot: console, fs_slot: fs, my_inbox, run, phase: LoadPhase::Opening, size: 0, offset: 0 },
            LoadStep { sends: open.sends, reply_on: Some(my_inbox), copy: None, outcome: None },
        )
    }

    fn next(&mut self, sends: Vec<Message>) -> (step: LoadStep)
        requires
            old(self).offset <= old(self).size,
            old(self).run ==> old(self).size <= RUN_MAX_SIZE,
        ensures
            final(self).wf(),
            ({
                let (m, (s, w, _, o)) = load_next_spec(old(self)@);
                &&& final(self)@ == m
                &&& step.sends@ == sends@ + s
                &&& step.reply_on == w
                &&& step.copy is None
                &&& step.outcome == o
            }),
    {
        let mut sends = sends;
        if self.offset < self.size {
            let want = if self.run {
                let rest = self.size - self.offset;
                if rest < CHUNK { rest } else { CHUNK }
            } else {
                CHUNK
            };
            let mut read = fs_read(self.fs_slot, self.my_inbox, self.offset, want).sends;
            sends.append(&mut read);
            self.phase = LoadPhase::Reading;
            LoadStep { sends, reply_on: Some(self.my_inbox), copy: None, outcome: None }
        } else {
            self.phase = LoadPhase::Done;
            if self.run {
                assert(sends@ + Seq::<Message>::empty() =~= sends@);
                LoadStep { sends, reply_on: None, copy: None, outcome: Some(LoadOutcome::Spawn(self.size)) }
            } else {
                let nl: [u8; 1] = [NEWLINE];
                let mut p = print(self.console_slot, nl.as_slice());
                assert(nl@ =~= seq![NEWLINE]);
                sends.append(&mut p);
                LoadStep { sends, reply_on: None, copy: None, outcome: Some(LoadOutcome::Done) }
            }
        }
    }

    fn end(&mut self, sends: Vec<Message>, outcome: LoadOutcome) -> (step: LoadStep)
        ensures
            final(self).wf(),
            (final(self)@, step@) == load_end(old(self)@, sends@, outcome),
    {
        self.phase = LoadPhase::Done;
        LoadStep { sends, reply_on: None, copy: None, outcome: Some(outcome) }
    }

    /// Handles the reply `r` to the previous step's request, with the
    /// shared file page holding `fs_buf` (see `load_step_spec`).
    pub fn on_reply(&mut self, r: &RecvResult, fs_buf: &[u8; PAGE_SIZE]) -> (step: LoadStep)
        requires
            old(self).wf(),
        ensures
            final(self).wf(),
            (final(self)@, step@) == load_step_spec(old(self)@, *r, fs_buf@),
    {
        match self.phase {
            LoadPhase::Opening => {
                if r.w0 != 1 {
                    let p = if self.run {
                        print(self.console_slot, RUN_NOT_FOUND.as_bytes())
                    } else {
                        print(self.console_slot, READ_NOT_FOUND.as_bytes())
                    };
                    self.end(p, LoadOutcome::NotFound)
                } else if self.run && !run_image_size_ok(r.w1) {
                    let p = print(self.console_slot, RUN_BAD_SIZE.as_bytes());
                    self.end(p, LoadOutcome::UnsupportedSize)
                } else {
                    self.size = r.w1;
                    self.offset = 0;
                    self.next(Vec::new())
                }
            },
            LoadPhase::Reading => {
                let rest = self.size - self.offset;
                let cap: u32 = if self.run { RUN_MAX_SIZE - self.offset } else { PAGE_SIZE as u32 };
                let n = if r.w0 < cap { r.w0 } else { cap };
                if n == 0 {
                    if self.run {
                        let p = print(self.console_slot, RUN_SHORT_READ.as_bytes());
                        return self.end(p, LoadOutcome::ShortRead);
                    } else {
                        let nl: [u8; 1] = [NEWLINE];
                        let p = print(self.console_slot, nl.as_slice());
                        assert(nl@ =~= seq![NEWLINE]);
                        return self.end(p, LoadOutcome::Done);
                    }
                }
                let at = self.offset;
                self.offset = if n >= rest { self.size } else { self.offset + n };
                if self.run {
                    let mut step = self.next(Vec::new());
                    assert(Seq::<Message>::empty() + load_next_spec(LoadModel { offset: self.offset as nat, ..old(self)@ }).1.0
                        =~= load_next_spec(LoadModel { offset: self.offset as nat, ..old(self)@ }).1.0);
                    step.copy = Some((at, n));
                    step
                } else {
                    let data = slice_subrange(fs_buf.as_slice(), 0, n as usize);
                    assert(data@ =~= fs_buf@.take(n as int));
                    let p = print(self.console_slot, data);
                    self.next(p)
                }
            },
            LoadPhase::Done => LoadStep { sends: Vec::new(), reply_on: None, copy: None, outcome: None },
        }
    }
}

/// What `run` prints once the kernel has answered the spawn of a loaded
/// image with `task_id` (0: the spawn failed).
pub fn spawn_report(console: u32, task_id: u32) -> (r: Vec<Message>)
    ensures
        r@ == (if task_id == 0 {
            putchars(console, RUN_SPAWN_FAILED.spec_bytes())
        } else {
            putchars(console, RUN_SPAWNED.spec_bytes()) + putchars(console, decimal(task_id as nat)) + putchars(
                console,
                seq![NEWLINE],
            )
        }),
{
    if task_id == 0 {
        return print(console, RUN_SPAWN_FAILED.as_bytes());
    }
    let mut out = print(console, RUN_SPAWNED.as_bytes());
    let mut id = print_u32(console, task_id);
    out.append(&mut id);
    let nl: [u8; 1] = [NEWLINE];
    let mut p = print(console, nl.as_slice());
    assert(nl@ =~= seq![NEWLINE]);
    out.append(&mut p);
    out
}

// ---------------------------------------------------------------------
// The edit session.
// ---------------------------------------------------------------------

pub const OPEN_FAILED: &'static str = "edit: could not open/create file\n";
pub const TRUNCATED_WARNING: &'static str = "edit: warning: file exceeds 64 KiB, truncated\n";
pub const WRITE_FAILED: &'static str = "edit: FAIL (write)\n";
pub const TRUNCATE_FAILED: &'static str = "edit: FAIL (truncate)\n";
pub const SAVED: &'static str = "edit: saved\n";
pub const DISCARDED: &'static str = "edit: discarded\n";
/// File bytes moved per request.
pub const CHUNK: u32 = 512;

/// Where an edit session is.
#[derive(Clone, Copy, Debug, PartialEq, Eq, Structural)]
pub enum EditPhase {
    Start,
    /// Waiting for the open reply.
    Opening,
    /// Waiting for a read reply while loading the file.
    Loading,
    /// Waiting for a key.
    Editing,
    /// Waiting for a write reply while saving.
    Saving,
    /// Waiting for the truncate reply that ends a save.
    Truncating,
    Done,
}

/// An edit session's state as values: the endpoints it talks to, its
/// phase, the editor's text and cursor, and (while loading or saving) how
/// far it has got, the file's size and whether loading dropped bytes.
pub struct EditModel {
    pub console: u32,
    pub reader: u32,
    pub inbox: u32,
    pub fs: u32,
    pub phase: EditPhase,
    pub text: EditorModel,
    pub offset: nat,
    pub size: nat,
    pub truncated: bool,
}

/// What one step asks the caller to do, as values: messages to send in
/// order (after copying `copy`'s `(start, len)` range of the text into
/// the shared file buffer, when there is one), then where to wait for the
/// reply (`None`: the session is over).
pub type EditOut = (EditModel, Seq<Message>, Option<(usize, usize)>, Option<u32>);

/// `n` capped at one chunk.
pub open spec fn chunk(n: int) -> int {
    min(n, CHUNK as int)
}

pub open spec fn set_mode_msg(console: u32, raw: bool) -> Message {
    msg(console, CONSOLE_OP_SET_MODE, if raw { 1 } else { 0 }, 0, 0)
}

pub open spec fn read_key_msg(console: u32) -> Message {
    msg(console, CONSOLE_OP_READ_KEY, 0, 0, 0)
}

/// Entering the key loop: the truncation warning if loading dropped
/// bytes, a redraw, and the first key request.
pub open spec fn start_editing(m: EditModel) -> EditOut {
    (
        EditModel { phase: EditPhase::Editing, ..m },
        (if m.truncated { putchars(m.console, TRUNCATED_WARNING.spec_bytes()) } else { Seq::empty() }) + putchars(
            m.console,
            redraw_bytes(m.text),
        ) + seq![read_key_msg(m.console)],
        None,
        Some(m.reader),
    )
}

/// The next read while loading, or the key loop once the file is in.
pub open spec fn load_next(m: EditModel) -> EditOut {
    if m.offset < m.size {
        (
            EditModel { phase: EditPhase::Loading, ..m },
            seq![msg(m.fs, FS_OP_READ, m.offset as u32, chunk(m.size - m.offset) as u32, 0)],
            None,
            Some(m.inbox),
        )
    } else {
        start_editing(m)
    }
}

/// The next write while saving, or the truncate that ends the save.
pub open spec fn save_next(m: EditModel) -> EditOut {
    let len = m.text.content.len();
    if m.offset < len {
        let n = chunk(len - m.offset);
        (
            EditModel { phase: EditPhase::Saving, ..m },
            seq![msg(m.fs, FS_OP_WRITE, m.offset as u32, n as u32, 0)],
            Some((m.offset as usize, n as usize)),
            Some(m.inbox),
        )
    } else {
        (EditModel { phase: EditPhase::Truncating, ..m }, seq![msg(m.fs, FS_OP_TRUNCATE, len as u32, 0, 0)], None, Some(m.inbox))
    }
}

/// The session ends after sending `sends`.
pub open spec fn finish(m: EditModel, sends: Seq<Message>) -> EditOut {
    (EditModel { phase: EditPhase::Done, ..m }, sends, None, None)
}

/// What the session does with reply `r`, the shared file buffer holding
/// `buf`. While loading, a reply of `n` bytes appends `n` bytes of the
/// shared page (at most the page) and moves the offset `n` bytes on (at
/// most to the file's size); while saving, the offset moves on by the
/// count the file server acknowledged (at most to the text's end).
pub open spec fn on_reply_spec(m: EditModel, r: RecvResult, buf: Seq<u8>) -> EditOut {
    match m.phase {
        EditPhase::Opening => if r.w0 == 1 {
            load_next(EditModel { size: r.w1 as nat, offset: 0, truncated: false, ..m })
        } else {
            finish(m, seq![set_mode_msg(m.console, false)] + putchars(m.console, OPEN_FAILED.spec_bytes()))
        },
        EditPhase::Loading => {
            let n = min(r.w0 as int, PAGE_SIZE as int);
            if n == 0 {
                start_editing(m)
            } else {
                let room = EDITOR_MAX_BYTES - m.text.content.len();
                let text = EditorModel { content: m.text.content + buf.take(min(n, room)), ..m.text };
                if n > room {
                    start_editing(EditModel { text, truncated: true, ..m })
                } else {
                    load_next(EditModel { text, offset: min(m.offset + n, m.size as int) as nat, ..m })
                }
            }
        },
        EditPhase::Editing => {
            let (text, res) = apply_key_spec(m.text, r.w0);
            let m2 = EditModel { text, ..m };
            let leave = seq![set_mode_msg(m.console, false)] + putchars(m.console, seq![NEWLINE]);
            match res {
                None => (m2, putchars(m.console, redraw_bytes(text)) + seq![read_key_msg(m.console)], None, Some(m.reader)),
                Some(true) => {
                    let (m3, sends, copy, reply_on) = save_next(EditModel { offset: 0, ..m2 });
                    (m3, leave + sends, copy, reply_on)
                },
                Some(false) => finish(m2, leave + putchars(m.console, DISCARDED.spec_bytes())),
            }
        },
        EditPhase::Saving => {
            if r.w0 == 0 {
                finish(m, putchars(m.console, WRITE_FAILED.spec_bytes()))
            } else {
                save_next(EditModel { offset: min(m.offset + r.w0, m.text.content.len() as int) as nat, ..m })
            }
        },
        EditPhase::Truncating => finish(m, putchars(m.console, if r.w0 == 1 { SAVED.spec_bytes() } else { TRUNCATE_FAILED.spec_bytes() })),
        _ => (m, Seq::empty(), None, None),
    }
}

/// What one step asks the caller to do (see `EditOut`).
pub struct EditStep {
    pub sends: Vec<Message>,
    pub copy: Option<(usize, usize)>,
    pub reply_on: Option<u32>,
}

/// One run of the full-screen editor on a file.
pub struct EditSession {
    pub editor: Editor,
    pub console_slot: u32,
    pub reader_slot: u32,
    pub my_inbox: u32,
    pub fs_slot: u32,
    pub phase: EditPhase,
    pub offset: u32,
    pub size: u32,
    pub truncated: bool,
}

impl EditSession {
    pub open spec fn view(&self) -> EditModel {
        EditModel {
            console: self.console_slot,
            reader: self.reader_slot,
            inbox: self.my_inbox,
            fs: self.fs_slot,
            phase: self.phase,
            text: self.editor.view(),
            offset: self.offset as nat,
            size: self.size as nat,
            truncated: self.truncated,
        }
    }

    /// The editor is well formed, and the progress counter lies within the
    /// file being loaded or the text being saved.
    pub open spec fn wf(&self) -> bool {
        &&& self.editor.wf()
        &&& self.phase == EditPhase::Loading ==> self.offset <= self.size
        &&& self.phase == EditPhase::Saving ==> self.offset <= self.editor.view().content.len()
    }

    /// A session that will edit with `editor`, talking to the console at
    /// `console_slot` (keys answered on `reader_slot`) and the filesystem
    /// at `fs_slot` (answers on `my_inbox`).
    pub fn new(editor: Editor, console_slot: u32, reader_slot: u32, my_inbox: u32, fs_slot: u32) -> (r: Self)
        requires
            editor.wf(),
        ensures
            r.wf(),
            r@ == (EditModel {
                console: console_slot,
                reader: reader_slot,
                inbox: my_inbox,
                fs: fs_slot,
                phase: EditPhase::Start,
                text: editor.view(),
                offset: 0,
                size: 0,
                truncated: false,
            }),
    {
        EditSession { editor, console_slot, reader_slot, my_inbox, fs_slot, phase: EditPhase::Start, offset: 0, size: 0, truncated: false }
    }

    /// Starts editing `name`: raw mode first (so keys typed during loading
    /// queue up for the editor), an empty editor, then the open request
    /// (creating the file if it does not exist).
    pub fn begin(&mut self, name: &[u8]) -> (step: EditStep)
        requires
            old(self).wf(),
        ensures
            final(self).wf(),
            final(self)@ == (EditModel {
                phase: EditPhase::Opening,
                text: EditorModel { content: Seq::empty(), cursor: 0 },
                ..old(self)@
            }),
            step.sends@ == seq![set_mode_msg(old(self).console_slot, true)] + open_sends(old(self).fs_slot, name@, true),
            step.copy is None,
            step.reply_on == Some(old(self).my_inbox),
    {
        let mut sends = console_set_mode(self.console_slot, true).sends;
        self.editor.reset();
        let mut open = fs_open_for_write(self.fs_slot, self.my_inbox, name).sends;
        sends.append(&mut open);
        self.phase = EditPhase::Opening;
        EditStep { sends, copy: None, reply_on: Some(self.my_inbox) }
    }

    fn start_editing(&mut self, sends: Vec<Message>) -> (step: EditStep)
        requires
            old(self).wf(),
        ensures
            final(self).wf(),
            ({
                let (m, s, c, ro) = start_editing(old(self)@);
                &&& final(self)@ == m
                &&& step.sends@ == sends@ + s
                &&& step.copy == c
                &&& step.reply_on == ro
            }),
    {
        let ghost s0 = sends@;
        let mut sends = sends;
        if self.truncated {
            let mut w = print(self.console_slot, TRUNCATED_WARNING.as_bytes());
            sends.append(&mut w);
        }
        let mut redraw = self.editor.redraw(self.console_slot);
        sends.append(&mut redraw);
        let mut key = console_read_key(self.console_slot, self.reader_slot).sends;
        sends.append(&mut key);
        self.phase = EditPhase::Editing;
        assert(sends@ =~= s0 + start_editing(old(self)@).1);
        EditStep { sends, copy: None, reply_on: Some(self.reader_slot) }
    }

    fn load_next(&mut self, sends: Vec<Message>) -> (step: EditStep)
        requires
            old(self).wf(),
            old(self).offset <= old(self).size,
        ensures
            final(self).wf(),
            ({
                let (m, s, c, ro) = load_next(old(self)@);
                &&& final(self)@ == m
                &&& step.sends@ == sends@ + s
                &&& step.copy == c
                &&& step.reply_on == ro
            }),
    {
        if self.offset < self.size {
            let rest = self.size - self.offset;
            let want = if rest < CHUNK { rest } else { CHUNK };
            let mut sends = sends;
            let mut read = fs_read(self.fs_slot, self.my_inbox, self.offset, want).sends;
            sends.append(&mut read);
            self.phase = EditPhase::Loading;
            EditStep { sends, copy: None, reply_on: Some(self.my_inbox) }
        } else {
            self.start_editing(sends)
        }
    }

    fn save_next(&mut self, sends: Vec<Message>) -> (step: EditStep)
        requires
            old(self).wf(),
            old(self).offset <= old(self).editor.view().content.len(),
        ensures
            final(self).wf(),
            ({
                let (m, s, c, ro) = save_next(old(self)@);
                &&& final(self)@ == m
                &&& step.sends@ == sends@ + s
                &&& step.copy == c
                &&& step.reply_on == ro
            }),
    {
        let len = self.editor.content().len();
        let mut sends = sends;
        if (self.offset as usize) < len {
            let rest = len - self.offset as usize;
            let want = if rest < CHUNK as usize { rest } else { CHUNK as usize };
            let mut write = fs_write(self.fs_slot, self.my_inbox, self.offset, want as u32).sends;
            sends.append(&mut write);
            self.phase = EditPhase::Saving;
            EditStep { sends, copy: Some((self.offset as usize, want)), reply_on: Some(self.my_inbox) }
        } else {
            let mut t = fs_truncate(self.fs_slot, self.my_inbox, len as u32).sends;
            sends.append(&mut t);
            self.phase = EditPhase::Truncating;
            EditStep { sends, copy: None, reply_on: Some(self.my_inbox) }
        }
    }

    fn finish(&mut self, sends: Vec<Message>) -> (step: EditStep)
        requires
            old(self).wf(),
        ensures
            final(self).wf(),
            final(self)@ == finish(old(self)@, sends@).0,
            step.sends@ == sends@,
            step.copy is None,
            step.reply_on is None,
    {
        self.phase = EditPhase::Done;
        EditStep { sends, copy: None, reply_on: None }
    }

    /// Handles the reply `r` to the previous step's requests, with the
    /// shared file page holding `fs_buf` (see `on_reply_spec`).
    pub fn on_reply(&mut self, r: &RecvResult, fs_buf: &[u8; PAGE_SIZE]) -> (step: EditStep)
        requires
            old(self).wf(),
        ensures
            final(self).wf(),
            ({
                let (m, s, c, ro) = on_reply_spec(old(self)@, *r, fs_buf@);
                &&& final(self)@ == m
                &&& step.sends@ == s
                &&& step.copy == c
                &&& step.reply_on == ro
            }),
    {
        let empty: Vec<Message> = Vec::new();
        match self.phase {
            EditPhase::Opening => {
                if r.w0 == 1 {
                    self.size = r.w1;
                    self.offset = 0;
                    self.truncated = false;
                    self.load_next(empty)
                } else {
                    let mut sends = console_set_mode(self.console_slot, false).sends;
                    let mut p = print(self.console_slot, OPEN_FAILED.as_bytes());
                    sends.append(&mut p);
                    self.finish(sends)
                }
            },
            EditPhase::Loading => {
                let n = if r.w0 < PAGE_SIZE as u32 { r.w0 } else { PAGE_SIZE as u32 };
                if n == 0 {
                    return self.start_editing(empty);
                }
                let room = EDITOR_MAX_BYTES - self.editor.content().len();
                let data = slice_subrange(fs_buf.as_slice(), 0, n as usize);
                self.editor.append_loaded(data);
                proof {
                    assert(data@.take(min(data@.len() as int, room as int)) =~= fs_buf@.take(min(n as int, room as int)));
                }
                if n as usize > room {
                    self.truncated = true;
                    self.start_editing(empty)
                } else {
                    self.offset = if n >= self.size - self.offset { self.size } else { self.offset + n };
                    self.load_next(empty)
                }
            },
            EditPhase::Editing => {
                match self.editor.apply_key(r.w0) {
                    None => {
                        let mut sends = self.editor.redraw(self.console_slot);
                        let mut key = console_read_key(self.console_slot, self.reader_slot).sends;
                        sends.append(&mut key);
                        EditStep { sends, copy: None, reply_on: Some(self.reader_slot) }
                    },
                    Some(save) => {
                        let mut sends = console_set_mode(self.console_slot, false).sends;
                        let nl: [u8; 1] = [NEWLINE];
                        let mut p = print(self.console_slot, nl.as_slice());
                        sends.append(&mut p);
                        assert(nl@ =~= seq![NEWLINE]);
                        if save {
                            self.offset = 0;
                            self.save_next(sends)
                        } else {
                            let mut d = print(self.console_slot, DISCARDED.as_bytes());
                            sends.append(&mut d);
                            self.finish(sends)
                        }
                    },
                }
            },
            EditPhase::Saving => {
                let len = self.editor.content().len();
                let rest = (len - self.offset as usize) as u32;
                if r.w0 == 0 {
                    let p = print(self.console_slot, WRITE_FAILED.as_bytes());
                    return self.finish(p);
                }
                self.offset = if r.w0 >= rest { len as u32 } else { self.offset + r.w0 };
                self.save_next(empty)
            },
            EditPhase::Truncating => {
                let p = if r.w0 == 1 {
                    print(self.console_slot, SAVED.as_bytes())
                } else {
                    print(self.console_slot, TRUNCATE_FAILED.as_bytes())
                };
                self.finish(p)
            },
            _ => EditStep { sends: empty, copy: None, reply_on: None },
        }
    }
}

/// The phases in which the console is in raw mode for the session.
pub open spec fn raw_phase(p: EditPhase) -> bool {
    p == EditPhase::Opening || p == EditPhase::Loading || p == EditPhase::Editing
}

/// The console is left in line mode whichever way editing ends: every step
/// that takes the session out of the raw-mode phases (a failed open, Ctrl-S
/// or Ctrl-Q) starts by switching the console back to line mode.
pub proof fn lemma_line_mode_restored(m: EditModel, r: RecvResult, buf: Seq<u8>)
    requires
        raw_phase(m.phase),
    ensures
        ({
            let (m2, sends, _, _) = on_reply_spec(m, r, buf);
            !raw_phase(m2.phase) ==> sends.len() > 0 && sends[0] == set_mode_msg(m.console, false)
        }),
{
}

/// A save writes the text front to back and then cuts the file to the
/// text's length: on Ctrl-S the first write starts at offset 0 (or, for
/// an empty text, the truncate to 0 is sent at once); while saving, the
/// text being saved does not change, each acknowledged write moves the next
/// one to exactly where the acknowledged bytes end and hands the file
/// server those bytes of the text, and once every byte is acknowledged the
/// one request left is the truncate to the text's length. Only a write
/// that moves nothing ends the save early.
pub proof fn lemma_save_writes_in_order(m: EditModel, r: RecvResult, buf: Seq<u8>)
    requires
        m.phase == EditPhase::Editing || (m.phase == EditPhase::Saving && m.offset < m.text.content.len()),
    ensures
        ({
            let (m2, sends, copy, wait) = on_reply_spec(m, r, buf);
            let len = m2.text.content.len();
            let write_next = copy == Some((m2.offset as usize, chunk(len - m2.offset) as usize)) && sends.last() == msg(
                m.fs,
                FS_OP_WRITE,
                m2.offset as u32,
                chunk(len - m2.offset) as u32,
                0,
            ) && wait == Some(m.inbox);
            let truncate = copy is None && sends.last() == msg(m.fs, FS_OP_TRUNCATE, len as u32, 0, 0) && wait == Some(m.inbox);
            &&& m.phase == EditPhase::Editing && apply_key_spec(m.text, r.w0).1 == Some(true) ==> {
                &&& m2.text == apply_key_spec(m.text, r.w0).0
                &&& m2.offset == 0
                &&& len > 0 ==> m2.phase == EditPhase::Saving && write_next
                &&& len == 0 ==> m2.phase == EditPhase::Truncating && truncate
            }
            &&& m.phase == EditPhase::Saving ==> {
                let n = r.w0 as int;
                &&& m2.text == m.text
                &&& n == 0 ==> m2.phase == EditPhase::Done && wait is None
                &&& n > 0 ==> m2.offset == min(m.offset + n, len as int)
                &&& n > 0 && m2.offset < len ==> m2.phase == EditPhase::Saving && write_next
                &&& n > 0 && m2.offset == len ==> m2.phase == EditPhase::Truncating && truncate
            }
        }),
{
}

} // verus!

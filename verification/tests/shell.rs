use zephyrlite::console::keyboard::{KEY_END, KEY_LEFT};
use zephyrlite::editor::{Editor, EDITOR_PAGES, KEY_BACKSPACE, KEY_CTRL_Q, KEY_CTRL_S};
use zephyrlite::fs::device::{BlockDevice, MemDisk};
use zephyrlite::fs::fat32::{fat32_fields_valid, find_in_root, parse_bpb, read_file, OpenFile};
use zephyrlite::fs::server::FsServer;
use zephyrlite::ipc::{
    fat_pack_name, Message, RecvResult, CONSOLE_OP_READ_KEY, CONSOLE_OP_SET_MODE, FS_OP_OPEN_NAME1, FS_OP_READ,
    FS_OP_SET_BUFFER, FS_OP_SET_REPLY, FS_OP_TRUNCATE, FS_OP_WRITE, OP_PUTCHAR,
};
use zephyrlite::shell::{
    classify_command, run_image_size_ok, spawn_report, split_command, EditPhase, EditSession, LoadOutcome, LoadPhase,
    LoadSession, LoadStep, ShellCommand,
};

#[test]
fn split_at_first_space() {
    assert_eq!(split_command(b"read hello.txt"), (&b"read"[..], &b"hello.txt"[..]));
    assert_eq!(split_command(b"help"), (&b"help"[..], &b""[..]));
    assert_eq!(split_command(b"edit a b"), (&b"edit"[..], &b"a b"[..]));
    assert_eq!(split_command(b" x"), (&b""[..], &b"x"[..]));
    assert_eq!(split_command(b""), (&b""[..], &b""[..]));
}

#[test]
fn command_words() {
    assert_eq!(classify_command(b"help"), ShellCommand::Help);
    assert_eq!(classify_command(b"read"), ShellCommand::Read);
    assert_eq!(classify_command(b"run"), ShellCommand::Run);
    assert_eq!(classify_command(b"edit"), ShellCommand::Edit);
    assert_eq!(classify_command(b""), ShellCommand::Empty);
    assert_eq!(classify_command(b"HELP"), ShellCommand::Unknown);
    assert_eq!(classify_command(b"reads"), ShellCommand::Unknown);
}

#[test]
fn run_accepts_one_page_images() {
    assert!(!run_image_size_ok(0));
    assert!(run_image_size_ok(1));
    assert!(run_image_size_ok(4096));
    assert!(!run_image_size_ok(4097));
}

const CONSOLE: u32 = 1;
const READER: u32 = 2;
const INBOX: u32 = 7;
const FS: u32 = 8;

fn editor() -> Editor {
    Editor::new(&[1u32; EDITOR_PAGES]).unwrap()
}

fn printed(msgs: &[Message]) -> Vec<u8> {
    msgs.iter().filter(|m| m.w0 == OP_PUTCHAR && m.dest_slot == CONSOLE).map(|m| m.w1 as u8).collect()
}

fn reply(w0: u32, w1: u32) -> RecvResult {
    RecvResult { sender: 4, w0, w1, w2: 0, transferred_slot: 0 }
}

#[test]
fn edit_session_steps_by_hand() {
    let mut s = EditSession::new(editor(), CONSOLE, READER, INBOX, FS);
    let step = s.begin(b"notes.txt");
    assert_eq!(step.sends[0], Message { dest_slot: CONSOLE, w0: CONSOLE_OP_SET_MODE, w1: 1, w2: 0, transfer_slot: 0 });
    assert_eq!(step.sends[1].w0, FS_OP_OPEN_NAME1);
    assert_eq!(step.sends[2].w1, u32::from_le_bytes(*b"TXT\0"));
    assert_eq!(step.sends[2].w2, 1);
    assert_eq!(step.reply_on, Some(INBOX));
    assert_eq!(s.phase, EditPhase::Opening);
    // The file exists with 5 bytes: one read of 5.
    let mut buf = [0u8; 4096];
    let step = s.on_reply(&reply(1, 5), &buf);
    assert_eq!(step.sends, vec![Message { dest_slot: FS, w0: FS_OP_READ, w1: 0, w2: 5, transfer_slot: 0 }]);
    buf[..5].copy_from_slice(b"hello");
    let step = s.on_reply(&reply(5, 0), &buf);
    assert_eq!(s.phase, EditPhase::Editing);
    assert_eq!(s.editor.content(), b"hello");
    assert_eq!(step.reply_on, Some(READER));
    assert_eq!(printed(&step.sends), b"\x1b[2J\x1b[Hhello\x1b[1;1H".to_vec());
    assert_eq!(*step.sends.last().unwrap(), Message { dest_slot: CONSOLE, w0: CONSOLE_OP_READ_KEY, w1: 0, w2: 0, transfer_slot: 0 });
    let step = s.on_reply(&reply(b'>' as u32, 0), &buf);
    assert_eq!(s.editor.content(), b">hello");
    assert_eq!(step.reply_on, Some(READER));
    // Ctrl-S: back to line mode, then the first write.
    let step = s.on_reply(&reply(KEY_CTRL_S, 0), &buf);
    assert_eq!(step.sends[0], Message { dest_slot: CONSOLE, w0: CONSOLE_OP_SET_MODE, w1: 0, w2: 0, transfer_slot: 0 });
    assert_eq!(printed(&step.sends), b"\n".to_vec());
    assert_eq!(*step.sends.last().unwrap(), Message { dest_slot: FS, w0: FS_OP_WRITE, w1: 0, w2: 6, transfer_slot: 0 });
    assert_eq!(step.copy, Some((0, 6)));
    // A short write continues where it stopped.
    let step = s.on_reply(&reply(4, 0), &buf);
    assert_eq!(step.sends, vec![Message { dest_slot: FS, w0: FS_OP_WRITE, w1: 4, w2: 2, transfer_slot: 0 }]);
    assert_eq!(step.copy, Some((4, 2)));
    let step = s.on_reply(&reply(2, 0), &buf);
    assert_eq!(step.sends, vec![Message { dest_slot: FS, w0: FS_OP_TRUNCATE, w1: 6, w2: 0, transfer_slot: 0 }]);
    let step = s.on_reply(&reply(1, 0), &buf);
    assert_eq!(printed(&step.sends), b"edit: saved\n".to_vec());
    assert_eq!(step.reply_on, None);
    assert_eq!(s.phase, EditPhase::Done);
}

#[test]
fn edit_session_failures() {
    let buf = [0u8; 4096];
    let mut s = EditSession::new(editor(), CONSOLE, READER, INBOX, FS);
    s.begin(b"x");
    let step = s.on_reply(&reply(0, 0), &buf);
    assert_eq!(step.sends[0].w0, CONSOLE_OP_SET_MODE);
    assert_eq!(step.sends[0].w1, 0);
    assert_eq!(printed(&step.sends), b"edit: could not open/create file\n".to_vec());
    assert_eq!(step.reply_on, None);

    let mut s = EditSession::new(editor(), CONSOLE, READER, INBOX, FS);
    s.begin(b"x");
    s.on_reply(&reply(1, 0), &buf);
    assert_eq!(s.phase, EditPhase::Editing);
    s.on_reply(&reply(b'a' as u32, 0), &buf);
    let step = s.on_reply(&reply(KEY_CTRL_S, 0), &buf);
    assert_eq!(step.copy, Some((0, 1)));
    let step = s.on_reply(&reply(0, 0), &buf);
    assert_eq!(printed(&step.sends), b"edit: FAIL (write)\n".to_vec());
    assert_eq!(s.phase, EditPhase::Done);

    let mut s = EditSession::new(editor(), CONSOLE, READER, INBOX, FS);
    s.begin(b"x");
    s.on_reply(&reply(1, 0), &buf);
    s.on_reply(&reply(KEY_CTRL_S, 0), &buf);
    assert_eq!(s.phase, EditPhase::Truncating);
    let step = s.on_reply(&reply(0, 0), &buf);
    assert_eq!(printed(&step.sends), b"edit: FAIL (truncate)\n".to_vec());

    let mut s = EditSession::new(editor(), CONSOLE, READER, INBOX, FS);
    s.begin(b"x");
    s.on_reply(&reply(1, 0), &buf);
    let step = s.on_reply(&reply(KEY_CTRL_Q, 0), &buf);
    assert_eq!(printed(&step.sends), b"\nedit: discarded\n".to_vec());
    assert_eq!(step.reply_on, None);
}

#[test]
fn edit_session_warns_when_file_is_too_big() {
    let mut s = EditSession::new(editor(), CONSOLE, READER, INBOX, FS);
    s.begin(b"big");
    let buf = [b'z'; 4096];
    let mut step = s.on_reply(&reply(1, 70_000), &buf);
    let mut reads = 0;
    while s.phase == EditPhase::Loading {
        assert_eq!(step.sends[0].w0, FS_OP_READ);
        reads += 1;
        step = s.on_reply(&reply(512, 0), &buf);
    }
    assert_eq!(reads, 129);
    assert_eq!(s.editor.content().len(), 65536);
    assert!(printed(&step.sends).starts_with(b"edit: warning: file exceeds 64 KiB, truncated\n"));
}

/// Drives an edit session against the filesystem service on an in-memory
/// FAT32 volume, typing `keys` once the editor is up.
fn edit_on_disk(disk: &mut MemDisk, srv: &mut FsServer, ed: Editor, name: &[u8], keys: &[u32]) -> (Editor, Vec<u8>) {
    let mut fsbuf = [0u8; 512];
    let mut s = EditSession::new(ed, CONSOLE, READER, INBOX, FS);
    let mut step = s.begin(name);
    let mut keys = keys.iter();
    let mut out = Vec::new();
    loop {
        if let Some((start, len)) = step.copy {
            fsbuf[..len].copy_from_slice(&s.editor.content()[start..start + len]);
        }
        let mut fs_reply = None;
        for m in &step.sends {
            if m.dest_slot == FS {
                let r = RecvResult { sender: 9, w0: m.w0, w1: m.w1, w2: m.w2, transferred_slot: m.transfer_slot };
                fs_reply = srv.handle(disk, &r, false, &mut fsbuf);
            }
        }
        out.extend(printed(&step.sends));
        let r = match step.reply_on {
            None => break,
            Some(READER) => reply(*keys.next().unwrap(), 0),
            Some(_) => {
                let m = fs_reply.unwrap();
                RecvResult { sender: 4, w0: m.w0, w1: m.w1, w2: m.w2, transferred_slot: 0 }
            },
        };
        let mut page = [0u8; 4096];
        page[..512].copy_from_slice(&fsbuf);
        step = s.on_reply(&r, &page);
    }
    (s.editor, out)
}

fn file_content(disk: &mut MemDisk, name: &[u8]) -> Vec<u8> {
    let bpb = parse_bpb(disk).unwrap();
    let (start_cluster, size, dirent) = find_in_root(&bpb, disk, &fat_pack_name(name)).unwrap();
    let f = OpenFile { start_cluster, size, dirent };
    let mut out = Vec::new();
    let mut buf = [0u8; 512];
    while (out.len() as u32) < size {
        let n = read_file(&bpb, disk, &f, out.len() as u32, 512, &mut buf);
        assert!(n > 0);
        out.extend_from_slice(&buf[..n as usize]);
    }
    out
}

#[test]
fn edit_save_reopen_and_shrink() {
    let mut disk = MemDisk::new(64);
    let mut boot = [0u8; 512];
    boot[11..13].copy_from_slice(&512u16.to_le_bytes());
    boot[13] = 1;
    boot[14..16].copy_from_slice(&2u16.to_le_bytes());
    boot[16] = 2;
    boot[32..36].copy_from_slice(&64u32.to_le_bytes());
    boot[36..40].copy_from_slice(&1u32.to_le_bytes());
    boot[44..48].copy_from_slice(&2u32.to_le_bytes());
    boot[510] = 0x55;
    boot[511] = 0xAA;
    assert!(fat32_fields_valid(&boot));
    assert!(disk.write_sector(0, &boot));
    let mut fat = [0u8; 512];
    fat[0..12].copy_from_slice(&[0xF8, 0xFF, 0xFF, 0x0F, 0xFF, 0xFF, 0xFF, 0x0F, 0xFF, 0xFF, 0xFF, 0x0F]);
    assert!(disk.write_sector(2, &fat));
    assert!(disk.write_sector(3, &fat));
    let bpb = parse_bpb(&mut disk).unwrap();
    let mut srv = FsServer::new(bpb);
    let mut fsbuf = [0u8; 512];
    let set_reply = RecvResult { sender: 9, w0: FS_OP_SET_REPLY, w1: 0, w2: 0, transferred_slot: INBOX };
    let set_buf = RecvResult { sender: 9, w0: FS_OP_SET_BUFFER, w1: 0, w2: 0, transferred_slot: 3 };
    srv.handle(&mut disk, &set_reply, false, &mut fsbuf);
    srv.handle(&mut disk, &set_buf, true, &mut fsbuf);

    let keys: Vec<u32> = b"hi there".iter().map(|&b| b as u32).chain([KEY_CTRL_S]).collect();
    let (ed, out) = edit_on_disk(&mut disk, &mut srv, editor(), b"notes.txt", &keys);
    assert!(out.ends_with(b"edit: saved\n"));
    assert_eq!(file_content(&mut disk, b"notes.txt"), b"hi there".to_vec());

    // `read` prints it; `run` loads it into the run page.
    let (out, _, outcome) = load_on_disk(&mut disk, &mut srv, b"notes.txt", false);
    assert_eq!(out, b"hi there\n".to_vec());
    assert_eq!(outcome, Some(LoadOutcome::Done));
    let (out, page, outcome) = load_on_disk(&mut disk, &mut srv, b"notes.txt", true);
    assert!(out.is_empty());
    assert_eq!(&page[..8], b"hi there");
    assert_eq!(outcome, Some(LoadOutcome::Spawn(8)));
    let (out, _, outcome) = load_on_disk(&mut disk, &mut srv, b"absent.txt", true);
    assert_eq!(out, b"run: not found\n".to_vec());
    assert_eq!(outcome, Some(LoadOutcome::NotFound));

    // Reopen: the text comes back; edit it and save again.
    let (ed, _) = edit_on_disk(&mut disk, &mut srv, ed, b"notes.txt", &[KEY_END, KEY_LEFT, b'!' as u32, KEY_CTRL_S]);
    assert_eq!(file_content(&mut disk, b"notes.txt"), b"hi ther!e".to_vec());

    // Deleting everything shrinks the file to nothing.
    let mut keys = vec![KEY_END];
    keys.extend([KEY_BACKSPACE; 9]);
    keys.push(KEY_CTRL_S);
    let (ed, _) = edit_on_disk(&mut disk, &mut srv, ed, b"notes.txt", &keys);
    assert_eq!(file_content(&mut disk, b"notes.txt"), Vec::<u8>::new());

    // A program image over several sectors comes in whole.
    let mut keys: Vec<u32> = (0..700u32).map(|i| (b'a' as u32) + i % 26).collect();
    keys.push(KEY_CTRL_S);
    let (ed, _) = edit_on_disk(&mut disk, &mut srv, ed, b"big.bin", &keys);
    let image: Vec<u8> = (0..700u32).map(|i| b'a' + (i % 26) as u8).collect();
    let (_, page, outcome) = load_on_disk(&mut disk, &mut srv, b"big.bin", true);
    assert_eq!(&page[..700], &image[..]);
    assert_eq!(outcome, Some(LoadOutcome::Spawn(700)));
    let (out, _, _) = load_on_disk(&mut disk, &mut srv, b"big.bin", false);
    assert_eq!(&out[..700], &image[..]);
    assert_eq!(out.len(), 701);

    // Quitting without saving leaves the file alone.
    let (_, out) = edit_on_disk(&mut disk, &mut srv, ed, b"notes.txt", &[b'x' as u32, KEY_CTRL_Q]);
    assert!(out.ends_with(b"edit: discarded\n"));
    assert_eq!(file_content(&mut disk, b"notes.txt"), Vec::<u8>::new());
}

fn fs_reads(step: &LoadStep) -> Vec<(u32, u32)> {
    step.sends.iter().filter(|m| m.dest_slot == FS && m.w0 == FS_OP_READ).map(|m| (m.w1, m.w2)).collect()
}

#[test]
fn read_session_prints_file_a_sector_at_a_time() {
    let (mut s, step) = LoadSession::begin(CONSOLE, FS, INBOX, b"hello.txt", false);
    assert_eq!(step.sends[0].w0, FS_OP_OPEN_NAME1);
    assert_eq!(step.sends[1].w2, 0);
    assert_eq!(step.reply_on, Some(INBOX));
    let step = s.on_reply(&reply(1, 700), &[0u8; 4096]);
    assert_eq!(fs_reads(&step), vec![(0, 512)]);
    let step = s.on_reply(&reply(512, 0), &[b'a'; 4096]);
    assert_eq!(printed(&step.sends), vec![b'a'; 512]);
    assert_eq!(fs_reads(&step), vec![(512, 512)]);
    let step = s.on_reply(&reply(188, 0), &[b'b'; 4096]);
    let mut want = vec![b'b'; 188];
    want.push(b'\n');
    assert_eq!(printed(&step.sends), want);
    assert_eq!(step.outcome, Some(LoadOutcome::Done));
    assert_eq!(step.reply_on, None);
    assert_eq!(s.phase, LoadPhase::Done);
}

#[test]
fn read_session_ends_and_fails() {
    let (mut s, _) = LoadSession::begin(CONSOLE, FS, INBOX, b"x", false);
    let step = s.on_reply(&reply(0, 0), &[0u8; 4096]);
    assert_eq!(printed(&step.sends), b"read: not found\n".to_vec());
    assert_eq!(step.outcome, Some(LoadOutcome::NotFound));
    // An empty file prints just the newline.
    let (mut s, _) = LoadSession::begin(CONSOLE, FS, INBOX, b"x", false);
    let step = s.on_reply(&reply(1, 0), &[0u8; 4096]);
    assert_eq!(printed(&step.sends), b"\n".to_vec());
    assert_eq!(step.outcome, Some(LoadOutcome::Done));
    // A read that moves nothing ends the listing early.
    let (mut s, _) = LoadSession::begin(CONSOLE, FS, INBOX, b"x", false);
    s.on_reply(&reply(1, 100), &[0u8; 4096]);
    let step = s.on_reply(&reply(0, 0), &[0u8; 4096]);
    assert_eq!(printed(&step.sends), b"\n".to_vec());
    assert_eq!(step.outcome, Some(LoadOutcome::Done));
}

#[test]
fn run_session_loads_image_then_spawns() {
    let (mut s, _) = LoadSession::begin(CONSOLE, FS, INBOX, b"prog", true);
    let step = s.on_reply(&reply(1, 700), &[0u8; 4096]);
    assert_eq!(fs_reads(&step), vec![(0, 512)]);
    let step = s.on_reply(&reply(512, 0), &[0u8; 4096]);
    assert_eq!(step.copy, Some((0, 512)));
    assert_eq!(fs_reads(&step), vec![(512, 188)]);
    let step = s.on_reply(&reply(188, 0), &[0u8; 4096]);
    assert_eq!(step.copy, Some((512, 188)));
    assert!(step.sends.is_empty());
    assert_eq!(step.outcome, Some(LoadOutcome::Spawn(700)));
    assert_eq!(step.reply_on, None);
}

#[test]
fn run_session_takes_what_the_reply_says_within_the_page() {
    let (mut s, _) = LoadSession::begin(CONSOLE, FS, INBOX, b"prog", true);
    s.on_reply(&reply(1, 700), &[0u8; 4096]);
    // A reply of more than was asked moves the whole reply.
    let step = s.on_reply(&reply(600, 0), &[0u8; 4096]);
    assert_eq!(step.copy, Some((0, 600)));
    assert_eq!(fs_reads(&step), vec![(600, 100)]);
    // Nothing is copied past the end of the run page.
    let step = s.on_reply(&reply(9000, 0), &[0u8; 4096]);
    assert_eq!(step.copy, Some((600, 3496)));
    assert_eq!(step.outcome, Some(LoadOutcome::Spawn(700)));
    // `read` prints as much of the page as the reply says.
    let (mut s, _) = LoadSession::begin(CONSOLE, FS, INBOX, b"x", false);
    s.on_reply(&reply(1, 5000), &[0u8; 4096]);
    let step = s.on_reply(&reply(1000, 0), &[b'q'; 4096]);
    assert_eq!(printed(&step.sends), vec![b'q'; 1000]);
    assert_eq!(fs_reads(&step), vec![(1000, 512)]);
}

#[test]
fn run_session_refusals() {
    let (mut s, _) = LoadSession::begin(CONSOLE, FS, INBOX, b"prog", true);
    let step = s.on_reply(&reply(0, 0), &[0u8; 4096]);
    assert_eq!(printed(&step.sends), b"run: not found\n".to_vec());
    assert_eq!(step.outcome, Some(LoadOutcome::NotFound));
    for size in [0u32, 4097] {
        let (mut s, _) = LoadSession::begin(CONSOLE, FS, INBOX, b"prog", true);
        let step = s.on_reply(&reply(1, size), &[0u8; 4096]);
        assert_eq!(printed(&step.sends), b"run: unsupported size\n".to_vec());
        assert_eq!(step.outcome, Some(LoadOutcome::UnsupportedSize));
    }
    let (mut s, _) = LoadSession::begin(CONSOLE, FS, INBOX, b"prog", true);
    s.on_reply(&reply(1, 4096), &[0u8; 4096]);
    let step = s.on_reply(&reply(0, 0), &[0u8; 4096]);
    assert_eq!(printed(&step.sends), b"run: short read\n".to_vec());
    assert_eq!(step.outcome, Some(LoadOutcome::ShortRead));
    assert_eq!(step.copy, None);
}

#[test]
fn spawn_reports() {
    assert_eq!(printed(&spawn_report(CONSOLE, 0)), b"run: spawn failed\n".to_vec());
    assert_eq!(printed(&spawn_report(CONSOLE, 42)), b"run: spawned task 42\n".to_vec());
}

/// Drives a load session against the filesystem service; returns what was
/// printed, the run page and how the load ended.
fn load_on_disk(disk: &mut MemDisk, srv: &mut FsServer, name: &[u8], run: bool) -> (Vec<u8>, Vec<u8>, Option<LoadOutcome>) {
    let mut fsbuf = [0u8; 512];
    let mut page = vec![0u8; 4096];
    let mut last_page = [0u8; 4096];
    let (mut s, mut step) = LoadSession::begin(CONSOLE, FS, INBOX, name, run);
    let mut out = Vec::new();
    loop {
        if let Some((at, n)) = step.copy {
            page[at as usize..(at + n) as usize].copy_from_slice(&last_page[..n as usize]);
        }
        let mut fs_reply = None;
        for m in &step.sends {
            if m.dest_slot == FS {
                let r = RecvResult { sender: 9, w0: m.w0, w1: m.w1, w2: m.w2, transferred_slot: m.transfer_slot };
                fs_reply = srv.handle(disk, &r, false, &mut fsbuf);
            }
        }
        out.extend(printed(&step.sends));
        if step.reply_on.is_none() {
            return (out, page, step.outcome);
        }
        let m = fs_reply.unwrap();
        last_page = [0u8; 4096];
        last_page[..512].copy_from_slice(&fsbuf);
        step = s.on_reply(&RecvResult { sender: 4, w0: m.w0, w1: m.w1, w2: m.w2, transferred_slot: 0 }, &last_page);
    }
}

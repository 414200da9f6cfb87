use zephyrlite::ipc::{
    block_reply_ok, console_connect, console_read_key, console_read_line, console_set_mode, fat_pack_name,
    fs_connect, fs_open, fs_open_for_write, fs_read, fs_truncate, fs_write, lookup_name, lookup_name_retry,
    lookup_reply, open_reply, pack_name, print, print_u32, register_name, storage_connect, storage_read_block,
    storage_write_block, truncate_reply, Message, RecvResult, CONSOLE_OP_READ_KEY, CONSOLE_OP_READ_LINE,
    CONSOLE_OP_SET_BUFFER, CONSOLE_OP_SET_MODE, CONSOLE_OP_SET_READER, FS_OP_OPEN_NAME1, FS_OP_OPEN_NAME2,
    FS_OP_READ, FS_OP_SET_BUFFER, FS_OP_SET_REPLY, FS_OP_TRUNCATE, FS_OP_WRITE, NAMESERVICE_SLOT, NS_OP_LOOKUP,
    NS_OP_REGISTER, OP_PUTCHAR, STORAGE_OP_READ_BLOCK, STORAGE_OP_SET_BUFFER, STORAGE_OP_SET_REPLY,
    STORAGE_OP_WRITE_BLOCK,
};
use zephyrlite::nameservice::{allowed, packed_name, Registry};

fn m(dest_slot: u32, w0: u32, w1: u32, w2: u32, transfer_slot: u32) -> Message {
    Message { dest_slot, w0, w1, w2, transfer_slot }
}

fn reply(w0: u32, w1: u32, slot: u32) -> RecvResult {
    RecvResult { sender: 1, w0, w1, w2: 0, transferred_slot: slot }
}

#[test]
fn pack_name_is_little_endian_and_padded() {
    assert_eq!(pack_name(b"console"), (u32::from_le_bytes(*b"cons"), u32::from_le_bytes(*b"ole\0")));
    assert_eq!(pack_name(b"fs"), (u32::from_le_bytes(*b"fs\0\0"), 0));
    assert_eq!(pack_name(b"longername"), (u32::from_le_bytes(*b"long"), u32::from_le_bytes(*b"erna")));
    assert_eq!(pack_name(b""), (0, 0));
}

#[test]
fn pack_then_unpack_gives_padded_name() {
    let (w0, w1) = pack_name(b"net");
    assert_eq!(packed_name(w0, w1), *b"net\0\0\0\0\0");
    let (w0, w1) = pack_name(b"storage99");
    assert_eq!(packed_name(w0, w1), *b"storage9");
}

#[test]
fn fat_names_are_8_3_upper_case() {
    assert_eq!(&fat_pack_name(b"hello.txt"), b"HELLO   TXT");
    assert_eq!(&fat_pack_name(b"README"), b"README     ");
    assert_eq!(&fat_pack_name(b"averylongname.text"), b"AVERYLONTEX");
    assert_eq!(&fat_pack_name(b"a.b.c"), b"A       B.C");
    assert_eq!(&fat_pack_name(b".rc"), b"        RC ");
}

#[test]
fn name_service_requests() {
    let x = register_name(b"fs", 2);
    assert_eq!(x.sends, vec![m(NAMESERVICE_SLOT, NS_OP_REGISTER, u32::from_le_bytes(*b"fs\0\0"), 0, 2)]);
    assert_eq!(x.reply_on, None);
    let x = lookup_name(b"storage", 3);
    assert_eq!(
        x.sends,
        vec![m(NAMESERVICE_SLOT, NS_OP_LOOKUP, u32::from_le_bytes(*b"stor"), u32::from_le_bytes(*b"age\0"), 3)]
    );
    assert_eq!(x.reply_on, Some(3));
    assert_eq!(lookup_reply(&reply(1, 0, 9)), Some(9));
    assert_eq!(lookup_reply(&reply(0, 0, 0)), None);
}

#[test]
fn lookup_retry_makes_at_most_max_tries_attempts() {
    let mut l = lookup_name_retry(b"fs", 2, 3);
    let mut n = 0;
    while let Some(x) = l.next_attempt() {
        assert_eq!(x.sends, lookup_name(b"fs", 2).sends);
        assert_eq!(x.reply_on, Some(2));
        n += 1;
    }
    assert_eq!(n, 3);
    assert!(l.next_attempt().is_none());
    let mut none = lookup_name_retry(b"fs", 2, 0);
    assert!(none.next_attempt().is_none());
}

#[test]
fn lookup_retry_stops_at_first_hit() {
    let mut l = lookup_name_retry(b"fs", 2, 5);
    assert!(l.next_attempt().is_some());
    assert_eq!(l.on_reply(&reply(0, 0, 0)), None);
    assert_eq!(l.tries_left, 4);
    assert!(l.next_attempt().is_some());
    assert_eq!(l.on_reply(&reply(1, 0, 9)), Some(9));
    assert_eq!(l.tries_left, 0);
    assert!(l.next_attempt().is_none());
}

#[test]
fn storage_requests() {
    let x = storage_connect(5, 6, 7);
    assert_eq!(x.sends, vec![m(5, STORAGE_OP_SET_BUFFER, 0, 0, 6), m(5, STORAGE_OP_SET_REPLY, 0, 0, 7)]);
    assert_eq!(x.reply_on, None);
    let x = storage_read_block(5, 7, 42);
    assert_eq!(x.sends, vec![m(5, STORAGE_OP_READ_BLOCK, 42, 0, 0)]);
    assert_eq!(x.reply_on, Some(7));
    let x = storage_write_block(5, 7, 43);
    assert_eq!(x.sends, vec![m(5, STORAGE_OP_WRITE_BLOCK, 43, 0, 0)]);
    assert!(block_reply_ok(&reply(1, 0, 0)));
    assert!(!block_reply_ok(&reply(0, 0, 0)));
}

#[test]
fn filesystem_requests() {
    let x = fs_connect(8, 9, 10);
    assert_eq!(x.sends, vec![m(8, FS_OP_SET_BUFFER, 0, 0, 9), m(8, FS_OP_SET_REPLY, 0, 0, 10)]);
    let x = fs_open(8, 10, b"hello.txt");
    assert_eq!(
        x.sends,
        vec![
            m(8, FS_OP_OPEN_NAME1, u32::from_le_bytes(*b"HELL"), u32::from_le_bytes(*b"O   "), 0),
            m(8, FS_OP_OPEN_NAME2, u32::from_le_bytes(*b"TXT\0"), 0, 0),
        ]
    );
    assert_eq!(x.reply_on, Some(10));
    let x = fs_open_for_write(8, 10, b"hello.txt");
    assert_eq!(x.sends[1], m(8, FS_OP_OPEN_NAME2, u32::from_le_bytes(*b"TXT\0"), 1, 0));
    assert_eq!(open_reply(&reply(1, 77, 0)), Some(77));
    assert_eq!(open_reply(&reply(0, 77, 0)), None);
    assert_eq!(fs_read(8, 10, 100, 50).sends, vec![m(8, FS_OP_READ, 100, 50, 0)]);
    assert_eq!(fs_write(8, 10, 100, 50).sends, vec![m(8, FS_OP_WRITE, 100, 50, 0)]);
    let x = fs_truncate(8, 10, 12);
    assert_eq!(x.sends, vec![m(8, FS_OP_TRUNCATE, 12, 0, 0)]);
    assert_eq!(x.reply_on, Some(10));
    assert!(truncate_reply(&reply(1, 0, 0)));
    assert!(!truncate_reply(&reply(0, 0, 0)));
}

#[test]
fn console_requests() {
    let x = console_connect(1, 2, 3);
    assert_eq!(x.sends, vec![m(1, CONSOLE_OP_SET_BUFFER, 0, 0, 2), m(1, CONSOLE_OP_SET_READER, 0, 0, 3)]);
    assert_eq!(console_read_line(1, 3).sends, vec![m(1, CONSOLE_OP_READ_LINE, 0, 0, 0)]);
    assert_eq!(console_read_line(1, 3).reply_on, Some(3));
    assert_eq!(console_set_mode(1, true).sends, vec![m(1, CONSOLE_OP_SET_MODE, 1, 0, 0)]);
    assert_eq!(console_set_mode(1, false).sends, vec![m(1, CONSOLE_OP_SET_MODE, 0, 0, 0)]);
    assert_eq!(console_read_key(1, 3).sends, vec![m(1, CONSOLE_OP_READ_KEY, 0, 0, 0)]);
}

#[test]
fn printing_sends_one_putchar_per_byte() {
    assert_eq!(print(4, b"ok"), vec![m(4, OP_PUTCHAR, b'o' as u32, 0, 0), m(4, OP_PUTCHAR, b'k' as u32, 0, 0)]);
    let digits: Vec<u32> = print_u32(4, 40213).iter().map(|x| x.w1).collect();
    assert_eq!(digits, b"40213".iter().map(|&b| b as u32).collect::<Vec<u32>>());
    assert_eq!(print_u32(4, 0), vec![m(4, OP_PUTCHAR, b'0' as u32, 0, 0)]);
    assert_eq!(print_u32(4, u32::MAX).len(), 10);
}

fn ns(sender: u32, w0: u32, name: &[u8], slot: u32) -> RecvResult {
    let (w1, w2) = pack_name(name);
    RecvResult { sender, w0, w1, w2, transferred_slot: slot }
}

#[test]
fn registry_register_then_lookup() {
    let mut r = Registry::new();
    assert_eq!(r.handle(ns(2, NS_OP_REGISTER, b"console", 12)), None);
    assert_eq!(r.handle(ns(9, NS_OP_LOOKUP, b"console", 40)), Some(m(40, 1, 0, 0, 12)));
    assert_eq!(r.handle(ns(9, NS_OP_LOOKUP, b"fs", 40)), Some(m(40, 0, 0, 0, 0)));
    // Re-registering replaces the capability; other names stay.
    assert_eq!(r.handle(ns(4, NS_OP_REGISTER, b"fs", 13)), None);
    assert_eq!(r.handle(ns(2, NS_OP_REGISTER, b"console", 14)), None);
    assert_eq!(r.handle(ns(9, NS_OP_LOOKUP, b"console", 41)), Some(m(41, 1, 0, 0, 14)));
    assert_eq!(r.handle(ns(9, NS_OP_LOOKUP, b"fs", 41)), Some(m(41, 1, 0, 0, 13)));
}

#[test]
fn registry_refuses_unauthorised_or_empty_registrations() {
    let mut r = Registry::new();
    assert_eq!(r.handle(ns(5, NS_OP_REGISTER, b"console", 12)), None);
    assert_eq!(r.handle(ns(2, NS_OP_REGISTER, b"fs", 12)), None);
    assert_eq!(r.handle(ns(6, NS_OP_REGISTER, b"net", 0)), None);
    assert_eq!(r.handle(ns(9, NS_OP_LOOKUP, b"console", 40)), Some(m(40, 0, 0, 0, 0)));
    assert_eq!(r.handle(ns(9, NS_OP_LOOKUP, b"fs", 40)), Some(m(40, 0, 0, 0, 0)));
    assert_eq!(r.handle(ns(9, NS_OP_LOOKUP, b"net", 40)), Some(m(40, 0, 0, 0, 0)));
    // A lookup with no reply endpoint, or an unknown request, gets nothing.
    assert_eq!(r.handle(ns(9, NS_OP_LOOKUP, b"console", 0)), None);
    assert_eq!(r.handle(ns(9, 77, b"console", 40)), None);
}

#[test]
fn allowlist() {
    assert!(allowed(2, b"console\0"));
    assert!(allowed(3, b"storage\0"));
    assert!(allowed(4, b"fs\0\0\0\0\0\0"));
    assert!(allowed(6, b"net\0\0\0\0\0"));
    assert!(!allowed(3, b"console\0"));
    assert!(!allowed(4, b"fs\0\0\0\0\0x"));
}

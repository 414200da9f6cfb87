use zephyrlite::fs::device::{BlockDevice, MemDisk};
use zephyrlite::fs::fat32::{
    alloc_cluster, fat32_fields_valid, find_fat32_base, find_free_root_slot, find_in_root, next_cluster,
    open_or_create, parse_bpb, read_fat_entry, read_file, scan_dir_sector, truncate_file, write_dirent_update,
    write_fat_entry, write_file, write_new_dirent, Bpb, DirLoc, DirScan, OpenFile,
};
use zephyrlite::fs::server::FsServer;
use zephyrlite::ipc::{
    Message, RecvResult, FS_OP_OPEN_NAME1, FS_OP_OPEN_NAME2, FS_OP_READ, FS_OP_SET_BUFFER, FS_OP_SET_REPLY,
    FS_OP_TRUNCATE, FS_OP_WRITE,
};

const TOTAL: u32 = 64;

fn put16(b: &mut [u8; 512], i: usize, v: u16) {
    b[i..i + 2].copy_from_slice(&v.to_le_bytes());
}

fn put32(b: &mut [u8; 512], i: usize, v: u32) {
    b[i..i + 4].copy_from_slice(&v.to_le_bytes());
}

/// A FAT32 boot sector: 1 sector per cluster, 2 reserved sectors, two
/// one-sector FATs, `total` sectors, root directory at cluster 2.
fn boot_sector(total: u32) -> [u8; 512] {
    let mut b = [0u8; 512];
    put16(&mut b, 11, 512);
    b[13] = 1;
    put16(&mut b, 14, 2);
    b[16] = 2;
    put32(&mut b, 32, total);
    put32(&mut b, 36, 1);
    put32(&mut b, 44, 2);
    b[510] = 0x55;
    b[511] = 0xAA;
    b
}

/// Formats `disk` with a FAT32 volume starting at `base`: boot sector, both
/// FAT copies with the reserved entries and an end-of-chain root cluster.
fn format_at(disk: &mut MemDisk, base: u32, total: u32) {
    assert!(disk.write_sector(base, &boot_sector(total)));
    let mut fat = [0u8; 512];
    put32(&mut fat, 0, 0x0FFF_FFF8);
    put32(&mut fat, 4, 0x0FFF_FFFF);
    put32(&mut fat, 8, 0x0FFF_FFFF);
    assert!(disk.write_sector(base + 2, &fat));
    assert!(disk.write_sector(base + 3, &fat));
}

fn fresh() -> (MemDisk, Bpb) {
    let mut disk = MemDisk::new(TOTAL);
    format_at(&mut disk, 0, TOTAL);
    let bpb = parse_bpb(&mut disk).unwrap();
    (disk, bpb)
}

fn name(s: &[u8; 11]) -> [u8; 11] {
    *s
}

fn sector(disk: &mut MemDisk, lba: u32) -> [u8; 512] {
    let mut b = [0u8; 512];
    assert!(disk.read_sector(lba, &mut b));
    b
}

fn create(disk: &mut MemDisk, bpb: &Bpb, n: &[u8; 11]) -> OpenFile {
    let (start_cluster, size, dirent) = open_or_create(bpb, disk, n, true).unwrap();
    OpenFile { start_cluster, size, dirent }
}

fn data_of(bytes: &[u8]) -> [u8; 512] {
    let mut d = [0u8; 512];
    d[..bytes.len()].copy_from_slice(bytes);
    d
}

#[test]
fn parse_bpb_of_unpartitioned_volume() {
    let (_, bpb) = fresh();
    assert_eq!(
        bpb,
        Bpb {
            sectors_per_cluster: 1,
            first_data_sector: 4,
            fat_begin_sector: 2,
            fat_sz32: 1,
            root_cluster: 2,
            max_cluster: 61,
        }
    );
    assert_eq!(bpb.cluster_to_sector(2), 4);
    assert_eq!(bpb.cluster_to_sector(7), 9);
    assert_eq!(bpb.cluster_size_bytes(), 512);
    assert_eq!(bpb.checked_cluster_sector(0), None);
    assert_eq!(bpb.checked_cluster_sector(1), None);
    assert_eq!(bpb.checked_cluster_sector(3), Some(5));
}

#[test]
fn parse_bpb_behind_mbr_partition() {
    let mut disk = MemDisk::new(80);
    let mut mbr = [0u8; 512];
    mbr[446 + 4] = 0x0C;
    put32(&mut mbr, 446 + 8, 8);
    mbr[510] = 0x55;
    mbr[511] = 0xAA;
    assert!(disk.write_sector(0, &mbr));
    format_at(&mut disk, 8, TOTAL);
    let mut buf = [0u8; 512];
    assert_eq!(find_fat32_base(&mut disk, &mut buf), Some(8));
    assert_eq!(buf, boot_sector(TOTAL));
    let bpb = parse_bpb(&mut disk).unwrap();
    assert_eq!(bpb.first_data_sector, 12);
    assert_eq!(bpb.fat_begin_sector, 10);
    assert_eq!(bpb.max_cluster, 61);
}

#[test]
fn parse_bpb_rejects_other_disks() {
    // Blank disk.
    let mut disk = MemDisk::new(8);
    assert_eq!(parse_bpb(&mut disk), None);
    // A FAT16-style boot sector (zero 32-bit FAT size).
    let mut b = boot_sector(TOTAL);
    put32(&mut b, 36, 0);
    assert!(!fat32_fields_valid(&b));
    assert!(disk.write_sector(0, &b));
    assert_eq!(parse_bpb(&mut disk), None);
    // An MBR whose first partition is not FAT32.
    let mut mbr = [0u8; 512];
    mbr[446 + 4] = 0x83;
    mbr[510] = 0x55;
    mbr[511] = 0xAA;
    assert!(disk.write_sector(0, &mbr));
    assert_eq!(parse_bpb(&mut disk), None);
    // Zero sectors per cluster.
    let mut b = boot_sector(TOTAL);
    b[13] = 0;
    assert!(disk.write_sector(0, &b));
    assert_eq!(parse_bpb(&mut disk), None);
    // Reserved and FAT area larger than the volume.
    let b = boot_sector(3);
    assert!(disk.write_sector(0, &b));
    assert_eq!(parse_bpb(&mut disk), None);
}

#[test]
fn fat_entries_and_chains() {
    let (mut disk, bpb) = fresh();
    assert_eq!(read_fat_entry(&bpb, &mut disk, 2), Some(0x0FFF_FFFF));
    assert_eq!(read_fat_entry(&bpb, &mut disk, 3), Some(0));
    assert_eq!(next_cluster(&bpb, &mut disk, 2), None);
    assert!(write_fat_entry(&bpb, &mut disk, 3, 9));
    assert_eq!(next_cluster(&bpb, &mut disk, 3), Some(9));
    // Free and reserved values end a chain too.
    assert_eq!(next_cluster(&bpb, &mut disk, 4), None);
    assert!(write_fat_entry(&bpb, &mut disk, 4, 1));
    assert_eq!(next_cluster(&bpb, &mut disk, 4), None);
}

#[test]
fn fat_write_keeps_top_bits_and_mirrors_both_copies() {
    let (mut disk, bpb) = fresh();
    let mut fat = sector(&mut disk, 2);
    put32(&mut fat, 20, 0xA000_0000);
    assert!(disk.write_sector(2, &fat));
    assert!(write_fat_entry(&bpb, &mut disk, 5, 0xFFFF_FFFF));
    let copy1 = sector(&mut disk, 2);
    let copy2 = sector(&mut disk, 3);
    assert_eq!(u32::from_le_bytes([copy1[20], copy1[21], copy1[22], copy1[23]]), 0xAFFF_FFFF);
    assert_eq!(u32::from_le_bytes([copy2[20], copy2[21], copy2[22], copy2[23]]), 0x0FFF_FFFF);
    let second = Bpb { fat_begin_sector: 3, ..bpb };
    assert_eq!(read_fat_entry(&bpb, &mut disk, 5), Some(0x0FFF_FFFF));
    assert_eq!(read_fat_entry(&second, &mut disk, 5), Some(0x0FFF_FFFF));
}

#[test]
fn alloc_claims_each_cluster_once() {
    let (mut disk, bpb) = fresh();
    let a = alloc_cluster(&bpb, &mut disk).unwrap();
    let b = alloc_cluster(&bpb, &mut disk).unwrap();
    assert_eq!(a, 3);
    assert_eq!(b, 4);
    assert_eq!(read_fat_entry(&bpb, &mut disk, 3), Some(0x0FFF_FFF8));
    let second = Bpb { fat_begin_sector: 3, ..bpb };
    assert_eq!(read_fat_entry(&second, &mut disk, 3), Some(0x0FFF_FFF8));
}

#[test]
fn alloc_on_full_volume_fails() {
    let (mut disk, bpb) = fresh();
    let small = Bpb { max_cluster: 4, ..bpb };
    assert_eq!(alloc_cluster(&small, &mut disk), Some(3));
    assert_eq!(alloc_cluster(&small, &mut disk), Some(4));
    assert_eq!(alloc_cluster(&small, &mut disk), None);
    let none = Bpb { max_cluster: 1, ..bpb };
    assert_eq!(alloc_cluster(&none, &mut disk), None);
}

#[test]
fn scan_dir_sector_skips_deleted_long_name_and_label_entries() {
    let n = name(b"NOTES   TXT");
    let mut s = [0u8; 512];
    s[0..11].copy_from_slice(&n);
    s[0] = 0xE5;
    s[32..43].copy_from_slice(&n);
    s[32 + 11] = 0x0F;
    s[64..75].copy_from_slice(&n);
    s[64 + 11] = 0x08;
    s[96..107].copy_from_slice(&n);
    s[96 + 11] = 0x20;
    assert_eq!(scan_dir_sector(&s, &n), DirScan::Found(96));
    s[96] = 0;
    assert_eq!(scan_dir_sector(&s, &n), DirScan::End);
    let mut full = [b'X'; 512];
    for e in 0..16 {
        full[e * 32 + 11] = 0x20;
    }
    assert_eq!(scan_dir_sector(&full, &n), DirScan::NotHere);
}

#[test]
fn open_missing_file_without_create_fails() {
    let (mut disk, bpb) = fresh();
    assert_eq!(open_or_create(&bpb, &mut disk, &name(b"MISSING TXT"), false), None);
    assert_eq!(find_in_root(&bpb, &mut disk, &name(b"MISSING TXT")), None);
}

#[test]
fn create_then_find() {
    let (mut disk, bpb) = fresh();
    let n = name(b"HELLO   TXT");
    let loc = DirLoc { sector: 4, offset: 0 };
    assert_eq!(open_or_create(&bpb, &mut disk, &n, true), Some((0, 0, loc)));
    let root = sector(&mut disk, 4);
    assert_eq!(&root[0..11], &n);
    assert_eq!(root[11], 0x20);
    assert!(root[12..32].iter().all(|&b| b == 0));
    assert_eq!(find_in_root(&bpb, &mut disk, &n), Some((0, 0, loc)));
    // Opening again finds the same entry rather than a second one.
    assert_eq!(open_or_create(&bpb, &mut disk, &n, true), Some((0, 0, loc)));
    let other = name(b"OTHER   TXT");
    assert_eq!(
        open_or_create(&bpb, &mut disk, &other, true),
        Some((0, 0, DirLoc { sector: 4, offset: 32 }))
    );
}

#[test]
fn write_then_read_back() {
    let (mut disk, bpb) = fresh();
    let mut f = create(&mut disk, &bpb, &name(b"HELLO   TXT"));
    assert_eq!(write_file(&bpb, &mut disk, &mut f, 0, 5, &data_of(b"hello")), 5);
    assert_eq!(f.start_cluster, 3);
    assert_eq!(f.size, 5);
    let mut out = [0u8; 512];
    assert_eq!(read_file(&bpb, &mut disk, &f, 0, 512, &mut out), 5);
    assert_eq!(&out[..5], b"hello");
    // The directory entry records the first cluster and size.
    assert_eq!(find_in_root(&bpb, &mut disk, &name(b"HELLO   TXT")), Some((3, 5, f.dirent)));
    // A read never goes past the end of the file.
    let mut out = [7u8; 512];
    assert_eq!(read_file(&bpb, &mut disk, &f, 2, 512, &mut out), 3);
    assert_eq!(&out[..3], b"llo");
    assert_eq!(out[3], 7);
    assert_eq!(read_file(&bpb, &mut disk, &f, 5, 512, &mut out), 0);
    assert_eq!(read_file(&bpb, &mut disk, &f, 1, 2, &mut out), 2);
    assert_eq!(&out[..2], b"el");
}

#[test]
fn overwrite_and_append_in_place() {
    let (mut disk, bpb) = fresh();
    let mut f = create(&mut disk, &bpb, &name(b"A       TXT"));
    assert_eq!(write_file(&bpb, &mut disk, &mut f, 0, 6, &data_of(b"abcdef")), 6);
    assert_eq!(write_file(&bpb, &mut disk, &mut f, 2, 2, &data_of(b"XY")), 2);
    assert_eq!(f.size, 6);
    assert_eq!(write_file(&bpb, &mut disk, &mut f, 6, 3, &data_of(b"ghi")), 3);
    assert_eq!(f.size, 9);
    let mut out = [0u8; 512];
    assert_eq!(read_file(&bpb, &mut disk, &f, 0, 512, &mut out), 9);
    assert_eq!(&out[..9], b"abXYefghi");
}

#[test]
fn write_past_end_is_refused() {
    let (mut disk, bpb) = fresh();
    let mut f = create(&mut disk, &bpb, &name(b"GAP     TXT"));
    let before = f;
    assert_eq!(write_file(&bpb, &mut disk, &mut f, 1, 4, &data_of(b"oops")), 0);
    assert_eq!(f, before);
    assert_eq!(read_fat_entry(&bpb, &mut disk, 3), Some(0));
}

#[test]
fn write_stops_at_sector_end_and_grows_chain() {
    let (mut disk, bpb) = fresh();
    let mut f = create(&mut disk, &bpb, &name(b"BIG     BIN"));
    let block = [b'a'; 512];
    assert_eq!(write_file(&bpb, &mut disk, &mut f, 0, 512, &block), 512);
    // A write never crosses a sector boundary.
    assert_eq!(write_file(&bpb, &mut disk, &mut f, 510, 10, &data_of(b"0123456789")), 2);
    assert_eq!(f.size, 512);
    // Appending at the cluster boundary allocates and links a new cluster.
    assert_eq!(write_file(&bpb, &mut disk, &mut f, 512, 3, &data_of(b"xyz")), 3);
    assert_eq!(f.size, 515);
    assert_eq!(next_cluster(&bpb, &mut disk, 3), Some(4));
    let mut out = [0u8; 512];
    assert_eq!(read_file(&bpb, &mut disk, &f, 512, 512, &mut out), 3);
    assert_eq!(&out[..3], b"xyz");
    assert_eq!(read_file(&bpb, &mut disk, &f, 508, 512, &mut out), 4);
    assert_eq!(&out[..4], b"aa01");
}

#[test]
fn truncate_only_shrinks() {
    let (mut disk, bpb) = fresh();
    let mut f = create(&mut disk, &bpb, &name(b"T       TXT"));
    assert_eq!(write_file(&bpb, &mut disk, &mut f, 0, 5, &data_of(b"12345")), 5);
    assert_eq!(truncate_file(&mut disk, &mut f, 9), 0);
    assert_eq!(f.size, 5);
    assert_eq!(truncate_file(&mut disk, &mut f, 2), 1);
    assert_eq!(f.size, 2);
    assert_eq!(find_in_root(&bpb, &mut disk, &name(b"T       TXT")), Some((3, 2, f.dirent)));
    let mut out = [0u8; 512];
    assert_eq!(read_file(&bpb, &mut disk, &f, 0, 512, &mut out), 2);
    assert_eq!(read_file(&bpb, &mut disk, &f, 2, 512, &mut out), 0);
}

#[test]
fn dirent_update_writes_cluster_and_size_fields() {
    let (mut disk, _) = fresh();
    let loc = DirLoc { sector: 4, offset: 64 };
    assert!(write_new_dirent(&mut disk, loc, &name(b"X       Y  ")));
    assert!(write_dirent_update(&mut disk, loc, 0x0012_3456, 0x0A0B_0C0D));
    let s = sector(&mut disk, 4);
    assert_eq!(&s[64 + 20..64 + 22], &[0x12, 0x00]);
    assert_eq!(&s[64 + 26..64 + 28], &[0x56, 0x34]);
    assert_eq!(&s[64 + 28..64 + 32], &[0x0D, 0x0C, 0x0B, 0x0A]);
    // A sector that is not on the disk cannot be updated.
    assert!(!write_dirent_update(&mut disk, DirLoc { sector: 1000, offset: 0 }, 1, 1));
    assert!(!write_new_dirent(&mut disk, DirLoc { sector: 1000, offset: 0 }, &name(b"X       Y  ")));
}

#[test]
fn free_slot_reuses_deleted_entry_then_grows_root() {
    let (mut disk, bpb) = fresh();
    let mut root = [0u8; 512];
    for e in 0..16 {
        root[e * 32] = b'F';
        root[e * 32 + 11] = 0x20;
    }
    root[5 * 32] = 0xE5;
    assert!(disk.write_sector(4, &root));
    assert_eq!(find_free_root_slot(&bpb, &mut disk), Some(DirLoc { sector: 4, offset: 160 }));
    root[5 * 32] = b'F';
    assert!(disk.write_sector(4, &root));
    // Every entry taken: a zero-filled cluster is linked after the root.
    assert!(disk.write_sector(5, &[9u8; 512]));
    assert_eq!(find_free_root_slot(&bpb, &mut disk), Some(DirLoc { sector: 5, offset: 0 }));
    assert_eq!(next_cluster(&bpb, &mut disk, 2), Some(3));
    assert_eq!(sector(&mut disk, 5), [0u8; 512]);
}

#[test]
fn create_in_full_root_grows_then_finds() {
    let (mut disk, bpb) = fresh();
    let mut root = [0u8; 512];
    for e in 0..16 {
        root[e * 32] = b'F';
        root[e * 32 + 1] = b'0' + e as u8;
        root[e * 32 + 11] = 0x20;
    }
    assert!(disk.write_sector(4, &root));
    let n = name(b"NEWFILE TXT");
    let loc = DirLoc { sector: 5, offset: 0 };
    assert_eq!(open_or_create(&bpb, &mut disk, &n, true), Some((0, 0, loc)));
    assert_eq!(find_in_root(&bpb, &mut disk, &n), Some((0, 0, loc)));
    // The old entries are still where they were.
    assert_eq!(sector(&mut disk, 4), root);
}

fn msg(reply: u32, w0: u32, w1: u32) -> Option<Message> {
    Some(Message { dest_slot: reply, w0, w1, w2: 0, transfer_slot: 0 })
}

fn req(w0: u32, w1: u32, w2: u32, slot: u32) -> RecvResult {
    RecvResult { sender: 5, w0, w1, w2, transferred_slot: slot }
}

#[test]
fn fs_server_session() {
    let (mut disk, bpb) = fresh();
    let mut srv = FsServer::new(bpb);
    let mut buf = [0u8; 512];
    // Nothing is answered before a reply endpoint is set.
    assert_eq!(srv.handle(&mut disk, &req(FS_OP_READ, 0, 10, 0), false, &mut buf), None);
    let set_buf = req(FS_OP_SET_BUFFER, 0, 0, 9);
    assert!(FsServer::needs_mapping(&set_buf));
    assert_eq!(srv.handle(&mut disk, &set_buf, true, &mut buf), None);
    assert_eq!(srv.handle(&mut disk, &req(FS_OP_SET_REPLY, 0, 0, 7), false, &mut buf), None);
    let n = b"LOG     TXT";
    let w1 = u32::from_le_bytes([n[0], n[1], n[2], n[3]]);
    let w2 = u32::from_le_bytes([n[4], n[5], n[6], n[7]]);
    let tail = u32::from_le_bytes([n[8], n[9], n[10], 0]);
    assert_eq!(srv.handle(&mut disk, &req(FS_OP_OPEN_NAME1, w1, w2, 0), false, &mut buf), None);
    // Without create a missing file fails to open.
    assert_eq!(srv.handle(&mut disk, &req(FS_OP_OPEN_NAME2, tail, 0, 0), false, &mut buf), msg(7, 0, 0));
    assert_eq!(srv.open_file, None);
    assert_eq!(srv.handle(&mut disk, &req(FS_OP_OPEN_NAME2, tail, 1, 0), false, &mut buf), msg(7, 1, 0));
    buf[..4].copy_from_slice(b"data");
    let w = req(FS_OP_WRITE, 0, 4, 0);
    assert!(srv.request_fits(&w));
    assert_eq!(srv.handle(&mut disk, &w, false, &mut buf), msg(7, 4, 0));
    let mut buf2 = [0u8; 512];
    assert_eq!(srv.handle(&mut disk, &req(FS_OP_READ, 1, 100, 0), false, &mut buf2), msg(7, 3, 0));
    assert_eq!(&buf2[..3], b"ata");
    assert_eq!(srv.handle(&mut disk, &req(FS_OP_TRUNCATE, 10, 0, 0), false, &mut buf2), msg(7, 0, 0));
    assert_eq!(srv.handle(&mut disk, &req(FS_OP_TRUNCATE, 1, 0, 0), false, &mut buf2), msg(7, 1, 0));
    assert_eq!(srv.handle(&mut disk, &req(FS_OP_READ, 0, 100, 0), false, &mut buf2), msg(7, 1, 0));
    // Reopening reports the persisted size.
    assert_eq!(srv.handle(&mut disk, &req(FS_OP_OPEN_NAME2, tail, 0, 0), false, &mut buf), msg(7, 1, 1));
    // Unknown requests are ignored.
    assert_eq!(srv.handle(&mut disk, &req(99, 0, 0, 0), false, &mut buf), None);
}

#[test]
fn fs_server_refuses_io_without_buffer() {
    let (mut disk, bpb) = fresh();
    let mut srv = FsServer::new(bpb);
    let mut buf = [0u8; 512];
    assert_eq!(srv.handle(&mut disk, &req(FS_OP_SET_REPLY, 0, 0, 7), false, &mut buf), None);
    // A set-buffer whose mapping failed leaves the buffer unmapped.
    assert_eq!(srv.handle(&mut disk, &req(FS_OP_SET_BUFFER, 0, 0, 9), false, &mut buf), None);
    assert!(!srv.client_buf_mapped);
    assert_eq!(srv.handle(&mut disk, &req(FS_OP_READ, 0, 10, 0), false, &mut buf), msg(7, 0, 0));
    assert_eq!(srv.handle(&mut disk, &req(FS_OP_WRITE, 0, 10, 0), false, &mut buf), msg(7, 0, 0));
    // Truncate needs no buffer, but needs an open file.
    assert_eq!(srv.handle(&mut disk, &req(FS_OP_TRUNCATE, 0, 0, 0), false, &mut buf), msg(7, 0, 0));
}

//! A FAT32 filesystem over a `BlockDevice`: finding the volume (directly at
//! LBA 0, or behind the first entry of an MBR partition table), parsing its
//! BPB, following and extending cluster chains through the FAT (always
//! updating both FAT copies), and opening, reading, writing and truncating
//! 8.3-named files in the root directory.
//!
//! Scope, as in the service this serves: root-directory files only, 8.3
//! names only (long-filename and volume-label entries are skipped), one
//! open file at a time. A write may start at most at the file's current
//! end, so a file never grows over clusters that were never written;
//! shrinking happens only through `truncate_file`.
//!
//! Values read off the disk are never trusted for arithmetic: a cluster
//! number or sector count whose sector address does not fit in 32 bits is
//! refused like a failed read, and a cluster-chain walk gives up after
//! `max_cluster` links, which only a chain that loops back on itself can
//! need.
//!
//! The laws proved here: a read after a write gives back the written bytes
//! (`lemma_write_then_read`), a file just created is found
//! (`lemma_create_then_find`), both FAT copies are updated alike
//! (`lemma_fat_write_mirrors`), and an allocated cluster is claimed
//! (`lemma_alloc_claims`).
use vstd::prelude::*;
use crate::bytes::{bytes_eq_at, fill_bytes, le16_at, le32_at, splice, write_bytes};
use crate::fs::device::{BlockDevice, SECTOR_SIZE};

verus! {

pub const DIRENT_SIZE: usize = 32;
pub const DIRENTS_PER_SECTOR: usize = 16;
/// FAT entries at or above this value mark the end of a chain.
pub const FAT32_EOC_MIN: u32 = 0x0FFF_FFF8;
/// Offset of the first partition-table entry in an MBR.
pub const PART1_OFFSET: usize = 446;

/// The volume geometry the rest of the filesystem needs, from the BPB.
#[derive(Clone, Copy, Debug, PartialEq, Eq)]
pub struct Bpb {
    pub sectors_per_cluster: u32,
    /// Absolute LBA of cluster 2.
    pub first_data_sector: u32,
    /// Absolute LBA of the first FAT copy.
    pub fat_begin_sector: u32,
    /// Sectors per FAT copy; the second copy follows the first.
    pub fat_sz32: u32,
    pub root_cluster: u32,
    /// Highest valid cluster number.
    pub max_cluster: u32,
}

/// The first sector of `cluster`, if it is a data cluster whose address
/// fits in 32 bits.
pub open spec fn cluster_sector(bpb: Bpb, cluster: u32) -> Option<u32> {
    if cluster < 2 {
        None
    } else {
        let s = bpb.first_data_sector + (cluster - 2) * bpb.sectors_per_cluster;
        if s <= u32::MAX && s + bpb.sectors_per_cluster <= u32::MAX + 1 { Some(s as u32) } else { None }
    }
}

impl Bpb {
    /// The first sector of `cluster` (a data cluster, numbered from 2).
    pub fn cluster_to_sector(&self, cluster: u32) -> (r: u32)
        requires
            cluster_sector(*self, cluster) is Some,
        ensures
            Some(r) == cluster_sector(*self, cluster),
    {
        let k = cluster - 2;
        proof {
            assert(k * self.sectors_per_cluster >= 0) by (nonlinear_arith);
            assert(k * self.sectors_per_cluster == (cluster - 2) * self.sectors_per_cluster);
        }
        let off = k * self.sectors_per_cluster;
        self.first_data_sector + off
    }

    /// Bytes per cluster.
    pub fn cluster_size_bytes(&self) -> (r: u32)
        requires
            self.sectors_per_cluster <= 255,
        ensures
            r == self.sectors_per_cluster * 512,
    {
        self.sectors_per_cluster * SECTOR_SIZE as u32
    }

    /// Checked form of `cluster_to_sector`, for cluster numbers read off
    /// the disk.
    pub fn checked_cluster_sector(&self, cluster: u32) -> (r: Option<u32>)
        ensures
            r == cluster_sector(*self, cluster),
    {
        if cluster < 2 {
            return None;
        }
        let k = (cluster - 2) as u64;
        let spc = self.sectors_per_cluster as u64;
        proof {
            assert(k * spc <= 0xFFFF_FFFF * 0xFFFF_FFFF) by (nonlinear_arith)
                requires k <= 0xFFFF_FFFF, spc <= 0xFFFF_FFFF;
        }
        let s = (self.first_data_sector as u64) + k * spc;
        if s <= 0xFFFF_FFFF && s + (self.sectors_per_cluster as u64) <= 0x1_0000_0000 {
            Some(s as u32)
        } else {
            None
        }
    }
}

/// Reads the little-endian 16-bit field at `i` of a sector.
fn rd16(b: &[u8; 512], i: usize) -> (r: u32)
    requires
        i + 2 <= 512,
    ensures
        r == le16_at(b@, i as int),
{
    (b[i] as u32) + (b[i + 1] as u32) * 256
}

/// Reads the little-endian 32-bit field at `i` of a sector.
fn rd32(b: &[u8; 512], i: usize) -> (r: u32)
    requires
        i + 4 <= 512,
    ensures
        r == le32_at(b@, i as int),
{
    (b[i] as u32) + (b[i + 1] as u32) * 0x100 + (b[i + 2] as u32) * 0x10000 + (b[i + 3] as u32) * 0x1000000
}

/// The sector carries the 0x55AA boot signature.
pub open spec fn has_boot_signature(s: Seq<u8>) -> bool {
    s[510] == 0x55 && s[511] == 0xAA
}

/// The sector is a genuine FAT32 (not FAT12/16) boot sector: 512 bytes per
/// sector, the boot signature, and a nonzero 32-bit FAT size.
pub open spec fn fat32_fields_valid_spec(s: Seq<u8>) -> bool {
    le16_at(s, 11) == 512 && has_boot_signature(s) && le32_at(s, 36) != 0
}

/// Whether sector `b` looks like a genuine FAT32 boot sector. The advisory
/// file-system-type string is deliberately not consulted.
pub fn fat32_fields_valid(b: &[u8; 512]) -> (r: bool)
    ensures
        r == fat32_fields_valid_spec(b@),
{
    rd16(b, 11) == SECTOR_SIZE as u32 && b[510] == 0x55 && b[511] == 0xAA && rd32(b, 36) != 0
}

/// Where the FAT32 volume's boot sector is on a disk with contents `d`: LBA
/// 0 for an unpartitioned disk, else the start of the MBR's first
/// partition if that entry is FAT32 (type 0x0B or 0x0C) and points at a
/// FAT32 boot sector.
pub open spec fn fat32_base_spec(d: Map<u32, Seq<u8>>) -> Option<u32> {
    if !d.contains_key(0) {
        None
    } else if fat32_fields_valid_spec(d[0]) {
        Some(0)
    } else if !has_boot_signature(d[0]) {
        None
    } else if d[0][450] != 0x0B && d[0][450] != 0x0C {
        None
    } else {
        let start = le32_at(d[0], 454) as u32;
        if d.contains_key(start) && fat32_fields_valid_spec(d[start]) { Some(start) } else { None }
    }
}

/// A FAT32 volume behind an MBR is found: when sector 0 is not itself a
/// FAT32 boot sector but carries the 0x55 0xAA boot signature, and its
/// first partition entry (at byte 446) has type 0x0B (FAT32, CHS) or 0x0C
/// (FAT32, LBA) and a start LBA (little-endian at bytes 454..458) whose
/// sector is a FAT32 boot sector, the volume's base is that start LBA. With
/// any other partition type, the disk has no volume.
pub proof fn lemma_volume_behind_mbr(d: Map<u32, Seq<u8>>)
    requires
        d.contains_key(0),
        d[0].len() == 512,
        !fat32_fields_valid_spec(d[0]),
        d[0][510] == 0x55 && d[0][511] == 0xAA,
    ensures
        ({
            let ty = d[0][450];
            let start = (d[0][454] + d[0][455] * 0x100 + d[0][456] * 0x10000 + d[0][457] * 0x1000000) as u32;
            &&& (ty == 0x0B || ty == 0x0C) && d.contains_key(start) && fat32_fields_valid_spec(d[start])
                ==> fat32_base_spec(d) == Some(start)
            &&& (ty == 0x0B || ty == 0x0C) && !(d.contains_key(start) && fat32_fields_valid_spec(d[start]))
                ==> fat32_base_spec(d) is None
            &&& !(ty == 0x0B || ty == 0x0C) ==> fat32_base_spec(d) is None
        }),
{
}

/// An unpartitioned volume is found at LBA 0: a sector 0 that is itself a
/// FAT32 boot sector makes the base 0, whatever else the disk holds.
pub proof fn lemma_volume_at_zero(d: Map<u32, Seq<u8>>)
    requires
        d.contains_key(0),
        fat32_fields_valid_spec(d[0]),
    ensures
        fat32_base_spec(d) == Some(0u32),
{
}

/// Finds the LBA of the FAT32 volume's boot sector (see `fat32_base_spec`).
/// On success `buf` holds that sector.
pub fn find_fat32_base<D: BlockDevice>(dev: &mut D, buf: &mut [u8; 512]) -> (r: Option<u32>)
    ensures
        old(dev).reliable() ==> final(dev).sectors() == old(dev).sectors(),
        old(dev).reliable() ==> final(dev).reliable(),
        old(dev).reliable() ==> r == fat32_base_spec(old(dev).sectors()),
        r matches Some(_) ==> fat32_fields_valid_spec(final(buf)@),
        old(dev).reliable() ==> (r matches Some(base) ==> old(dev).sectors().contains_key(base) && final(buf)@
            == old(dev).sectors()[base]),
{
    if !dev.read_sector(0, buf) {
        return None;
    }
    if fat32_fields_valid(buf) {
        return Some(0);
    }
    if buf[510] != 0x55 || buf[511] != 0xAA {
        return None;
    }
    let part_type = buf[PART1_OFFSET + 4];
    if part_type != 0x0B && part_type != 0x0C {
        return None;
    }
    let start_lba = rd32(buf, PART1_OFFSET + 8);
    if !dev.read_sector(start_lba, buf) {
        return None;
    }
    if fat32_fields_valid(buf) {
        Some(start_lba)
    } else {
        None
    }
}

/// The geometry of the FAT32 volume whose boot sector `s` sits at LBA
/// `base`, or `None` for a BPB that is unusable: wrong sector size or
/// signature, zero sectors per cluster, a reserved+FAT area larger than the
/// volume, or sizes whose absolute sector addresses or cluster count
/// overflow 32 bits.
pub open spec fn bpb_spec(s: Seq<u8>, base: u32) -> Option<Bpb> {
    let spc = s[13] as nat;
    let reserved = le16_at(s, 14);
    let num_fats = s[16] as nat;
    let total = le32_at(s, 32);
    let fat_sz = le32_at(s, 36);
    let first_data = reserved + num_fats * fat_sz;
    if le16_at(s, 11) != 512 || !has_boot_signature(s) {
        None
    } else if first_data > u32::MAX || base + first_data > u32::MAX {
        None
    } else if spc == 0 || total < first_data {
        None
    } else if (total - first_data) as int / spc as int + 1 > u32::MAX {
        None
    } else {
        Some(
            Bpb {
                sectors_per_cluster: spc as u32,
                first_data_sector: (base + first_data) as u32,
                fat_begin_sector: (base + reserved) as u32,
                fat_sz32: fat_sz as u32,
                root_cluster: le32_at(s, 44) as u32,
                max_cluster: ((total - first_data) as int / spc as int + 1) as u32,
            },
        )
    }
}

/// What `parse_bpb` finds on a disk with contents `d`.
pub open spec fn parse_bpb_spec(d: Map<u32, Seq<u8>>) -> Option<Bpb> {
    match fat32_base_spec(d) {
        Some(base) => bpb_spec(d[base], base),
        None => None,
    }
}

/// Finds the FAT32 volume and parses its BPB; `None` if there is no usable
/// FAT32 volume.
pub fn parse_bpb<D: BlockDevice>(dev: &mut D) -> (r: Option<Bpb>)
    ensures
        old(dev).reliable() ==> final(dev).sectors() == old(dev).sectors(),
        old(dev).reliable() ==> final(dev).reliable(),
        old(dev).reliable() ==> r == parse_bpb_spec(old(dev).sectors()),
        r matches Some(bpb) ==> bpb.sectors_per_cluster <= 255 && bpb.sectors_per_cluster > 0,
{
    let mut buf = [0u8; 512];
    let base = match find_fat32_base(dev, &mut buf) {
        Some(b) => b,
        None => {
            return None;
        },
    };
    let bytes_per_sector = rd16(&buf, 11);
    let sectors_per_cluster = buf[13] as u32;
    let reserved_sector_count = rd16(&buf, 14);
    let num_fats = buf[16] as u32;
    let total_sectors32 = rd32(&buf, 32);
    let fat_sz32 = rd32(&buf, 36);
    let root_cluster = rd32(&buf, 44);
    if bytes_per_sector != SECTOR_SIZE as u32 || buf[510] != 0x55 || buf[511] != 0xAA {
        return None;
    }
    let nf = num_fats as u64;
    let fs = fat_sz32 as u64;
    proof {
        assert(nf * fs <= 255 * 0xFFFF_FFFF) by (nonlinear_arith)
            requires nf <= 255, fs <= 0xFFFF_FFFF;
    }
    let first_data_sector = (reserved_sector_count as u64) + nf * fs;
    if first_data_sector > 0xFFFF_FFFF || (base as u64) + first_data_sector > 0xFFFF_FFFF {
        return None;
    }
    let first_data_sector = first_data_sector as u32;
    if sectors_per_cluster == 0 || total_sectors32 < first_data_sector {
        return None;
    }
    let q = (total_sectors32 - first_data_sector) / sectors_per_cluster;
    if q == u32::MAX {
        return None;
    }
    let max_cluster = q + 1;
    Some(
        Bpb {
            sectors_per_cluster,
            first_data_sector: base + first_data_sector,
            fat_begin_sector: base + reserved_sector_count,
            fat_sz32,
            root_cluster,
            max_cluster,
        },
    )
}

// ---------------------------------------------------------------------
// The FAT.
// ---------------------------------------------------------------------

/// Where cluster `c`'s entry sits in the FAT copy starting at `fat_base`:
/// its sector and byte offset, if the sector address fits in 32 bits.
pub open spec fn fat_entry_pos(fat_base: u32, c: u32) -> Option<(u32, int)> {
    let sec = fat_base + (c as int * 4) / 512;
    if sec <= u32::MAX { Some((sec as u32, (c as int * 4) % 512)) } else { None }
}

/// Cluster `c`'s raw 28-bit entry in the first FAT copy on disk `d`.
#[verifier::opaque]
pub open spec fn raw_fat_entry(d: Map<u32, Seq<u8>>, bpb: Bpb, c: u32) -> Option<u32> {
    match fat_entry_pos(bpb.fat_begin_sector, c) {
        Some((sec, off)) => if d.contains_key(sec) {
            Some((le32_at(d[sec], off) % 0x1000_0000) as u32)
        } else {
            None
        },
        None => None,
    }
}

/// The cluster after `c` in its chain, or `None` at the end of the chain
/// (an entry at or above `FAT32_EOC_MIN`, or a free/reserved one below 2).
pub open spec fn next_cluster_spec(d: Map<u32, Seq<u8>>, bpb: Bpb, c: u32) -> Option<u32> {
    match raw_fat_entry(d, bpb, c) {
        Some(r) => if r >= FAT32_EOC_MIN || r < 2 { None } else { Some(r) },
        None => None,
    }
}

/// The sector and offset of cluster `c`'s FAT entry in the copy at `fat_base`.
fn fat_pos(fat_base: u32, c: u32) -> (r: Option<(u32, usize)>)
    ensures
        match fat_entry_pos(fat_base, c) {
            Some((sec, off)) => r == Some((sec, off as usize)) && 0 <= off <= 508,
            None => r is None,
        },
{
    let fat_offset = (c as u64) * 4;
    let sec = (fat_base as u64) + fat_offset / 512;
    if sec > 0xFFFF_FFFF {
        return None;
    }
    Some((sec as u32, (fat_offset % 512) as usize))
}

/// Reads cluster `c`'s raw (28-bit) FAT entry, without interpreting it.
pub fn read_fat_entry<D: BlockDevice>(bpb: &Bpb, dev: &mut D, cluster: u32) -> (r: Option<u32>)
    ensures
        old(dev).reliable() ==> final(dev).sectors() == old(dev).sectors(),
        old(dev).reliable() ==> final(dev).reliable(),
        old(dev).reliable() ==> r == raw_fat_entry(old(dev).sectors(), *bpb, cluster),
{
    proof {
        reveal(raw_fat_entry);
    }
    let (sec, off) = match fat_pos(bpb.fat_begin_sector, cluster) {
        Some(p) => p,
        None => {
            return None;
        },
    };
    let mut buf = [0u8; 512];
    if !dev.read_sector(sec, &mut buf) {
        return None;
    }
    let raw = rd32(&buf, off);
    assert(raw & 0x0FFF_FFFF == raw % 0x1000_0000) by (bit_vector);
    Some(raw & 0x0FFF_FFFF)
}

/// Follows one link of a cluster chain; `None` at the end of the chain.
pub fn next_cluster<D: BlockDevice>(bpb: &Bpb, dev: &mut D, cluster: u32) -> (r: Option<u32>)
    ensures
        old(dev).reliable() ==> final(dev).sectors() == old(dev).sectors(),
        old(dev).reliable() ==> final(dev).reliable(),
        old(dev).reliable() ==> r == next_cluster_spec(old(dev).sectors(), *bpb, cluster),
{
    match read_fat_entry(bpb, dev, cluster) {
        Some(raw) => if raw >= FAT32_EOC_MIN || raw < 2 {
            None
        } else {
            Some(raw)
        },
        None => None,
    }
}

/// Sector `s` with the little-endian word at `off` replaced by one that
/// keeps the top 4 bits of the old word and takes the low 28 of `value`.
pub open spec fn with_fat_word(s: Seq<u8>, off: int, value: u32) -> Seq<u8> {
    let old_word = le32_at(s, off);
    let w = (old_word / 0x1000_0000) * 0x1000_0000 + (value as nat) % 0x1000_0000;
    Seq::new(
        s.len(),
        |i: int|
            if i == off {
                (w % 256) as u8
            } else if i == off + 1 {
                ((w / 0x100) % 256) as u8
            } else if i == off + 2 {
                ((w / 0x10000) % 256) as u8
            } else if i == off + 3 {
                (w / 0x1000000) as u8
            } else {
                s[i]
            },
    )
}

/// Updates cluster `c`'s entry in the FAT copy at `fat_base` of disk `d`:
/// whether it worked, and the disk after.
pub open spec fn write_fat_copy(d: Map<u32, Seq<u8>>, fat_base: u32, c: u32, value: u32) -> (bool, Map<u32, Seq<u8>>) {
    match fat_entry_pos(fat_base, c) {
        Some((sec, off)) => if d.contains_key(sec) {
            (true, d.insert(sec, with_fat_word(d[sec], off, value)))
        } else {
            (false, d)
        },
        None => (false, d),
    }
}

/// Sets cluster `c`'s entry to `value` in both FAT copies (the second copy
/// starts `fat_sz32` sectors after the first): whether it worked, and the
/// disk after.
pub open spec fn write_fat_spec(d: Map<u32, Seq<u8>>, bpb: Bpb, c: u32, value: u32) -> (bool, Map<u32, Seq<u8>>) {
    let (ok1, d1) = write_fat_copy(d, bpb.fat_begin_sector, c, value);
    if !ok1 {
        (false, d1)
    } else if bpb.fat_begin_sector + bpb.fat_sz32 > u32::MAX {
        (false, d1)
    } else {
        write_fat_copy(d1, (bpb.fat_begin_sector + bpb.fat_sz32) as u32, c, value)
    }
}

/// Read-modify-write of one FAT copy's entry for `cluster`.
fn write_fat_copy_exec<D: BlockDevice>(dev: &mut D, fat_base: u32, cluster: u32, value: u32) -> (ok: bool)
    ensures
        old(dev).reliable() ==> final(dev).reliable(),
        old(dev).reliable() ==> (ok, final(dev).sectors()) == write_fat_copy(old(dev).sectors(), fat_base, cluster, value),
{
    let (sec, off) = match fat_pos(fat_base, cluster) {
        Some(p) => p,
        None => {
            return false;
        },
    };
    let mut buf = [0u8; 512];
    if !dev.read_sector(sec, &mut buf) {
        return false;
    }
    let ghost s0 = buf@;
    let old_word = rd32(&buf, off);
    let new_word = (old_word & 0xF000_0000) | (value & 0x0FFF_FFFF);
    assert((old_word & 0xF000_0000) | (value & 0x0FFF_FFFF) == (old_word / 0x1000_0000) * 0x1000_0000 + value % 0x1000_0000)
        by (bit_vector);
    buf[off] = (new_word % 256) as u8;
    buf[off + 1] = ((new_word / 0x100) % 256) as u8;
    buf[off + 2] = ((new_word / 0x10000) % 256) as u8;
    buf[off + 3] = (new_word / 0x1000000) as u8;
    assert(buf@ =~= with_fat_word(s0, off as int, value));
    dev.write_sector(sec, &buf)
}

/// Writes `cluster`'s FAT entry as `value` (28 bits; the entry's reserved
/// top 4 bits are kept) in both FAT copies, so the second copy never goes
/// stale. `false` if a sector could not be read or written.
pub fn write_fat_entry<D: BlockDevice>(bpb: &Bpb, dev: &mut D, cluster: u32, value: u32) -> (ok: bool)
    ensures
        old(dev).reliable() ==> final(dev).reliable(),
        old(dev).reliable() ==> (ok, final(dev).sectors()) == write_fat_spec(old(dev).sectors(), *bpb, cluster, value),
{
    if !write_fat_copy_exec(dev, bpb.fat_begin_sector, cluster, value) {
        return false;
    }
    if (bpb.fat_begin_sector as u64) + (bpb.fat_sz32 as u64) > 0xFFFF_FFFF {
        return false;
    }
    write_fat_copy_exec(dev, bpb.fat_begin_sector + bpb.fat_sz32, cluster, value)
}

/// Where a free-cluster scan from cluster `c` on stops.
#[derive(Clone, Copy, Debug, PartialEq, Eq)]
pub enum FreeScan {
    /// The first free cluster.
    Found(u32),
    /// No cluster up to `max_cluster` is free.
    Full,
    /// A FAT entry could not be read.
    Failed,
}

/// Scans the FAT from cluster `c` up to `max_cluster` for the first free
/// (zero) entry.
pub open spec fn scan_free(d: Map<u32, Seq<u8>>, bpb: Bpb, c: int) -> FreeScan
    decreases bpb.max_cluster + 1 - c,
{
    if c > bpb.max_cluster || c < 0 {
        FreeScan::Full
    } else {
        match raw_fat_entry(d, bpb, c as u32) {
            None => FreeScan::Failed,
            Some(v) => if v == 0 { FreeScan::Found(c as u32) } else { scan_free(d, bpb, c + 1) },
        }
    }
}

/// Allocating a cluster on disk `d`: the first free cluster from 2 on,
/// claimed by marking it end-of-chain in both FAT copies; the result and
/// the disk after.
pub open spec fn alloc_spec(d: Map<u32, Seq<u8>>, bpb: Bpb) -> (Option<u32>, Map<u32, Seq<u8>>) {
    match scan_free(d, bpb, 2) {
        FreeScan::Found(c) => {
            let (ok, d2) = write_fat_spec(d, bpb, c, FAT32_EOC_MIN);
            (if ok { Some(c) } else { None }, d2)
        },
        _ => (None, d),
    }
}

/// Finds the first free cluster and claims it (end-of-chain in both FAT
/// copies) so no later allocation picks it too. `None` if the disk is full
/// or the FAT could not be read or written.
pub fn alloc_cluster<D: BlockDevice>(bpb: &Bpb, dev: &mut D) -> (r: Option<u32>)
    ensures
        old(dev).reliable() ==> final(dev).reliable(),
        old(dev).reliable() ==> (r, final(dev).sectors()) == alloc_spec(old(dev).sectors(), *bpb),
        r matches Some(c) ==> 2 <= c <= bpb.max_cluster,
{
    let ghost d0 = dev.sectors();
    if bpb.max_cluster < 2 {
        return None;
    }
    let mut cluster: u64 = 2;
    while cluster <= bpb.max_cluster as u64
        invariant
            2 <= cluster <= bpb.max_cluster as u64 + 1,
            old(dev).reliable() ==> dev.reliable() && dev.sectors() == d0,
            old(dev).sectors() == d0,
            old(dev).reliable() ==> scan_free(d0, *bpb, 2) == scan_free(d0, *bpb, cluster as int),
        decreases bpb.max_cluster as u64 + 1 - cluster,
    {
        let c = cluster as u32;
        match read_fat_entry(bpb, dev, c) {
            Some(v) => {
                if v == 0 {
                    if write_fat_entry(bpb, dev, c, FAT32_EOC_MIN) {
                        return Some(c);
                    }
                    return None;
                }
            },
            None => {
                return None;
            },
        }
        cluster = cluster + 1;
    }
    None
}

// ---------------------------------------------------------------------
// The root directory.
// ---------------------------------------------------------------------

/// Where a directory entry lives on disk: its sector and the entry's byte
/// offset in that sector.
#[derive(Clone, Copy, Debug, PartialEq, Eq)]
pub struct DirLoc {
    pub sector: u32,
    pub offset: usize,
}

impl DirLoc {
    /// The entry lies wholly inside its sector.
    pub open spec fn valid(self) -> bool {
        self.offset + DIRENT_SIZE <= SECTOR_SIZE
    }
}

/// The entry at `off` is a live 8.3 entry: not deleted, not a long-filename
/// piece, not a volume label.
pub open spec fn dirent_live(s: Seq<u8>, off: int) -> bool {
    s[off] != 0xE5 && s[off + 11] != 0x0F && (s[off + 11] & 0x08u8) == 0
}

/// What a directory sector says about `name`, from entry `e` on.
#[derive(Clone, Copy, Debug, PartialEq, Eq)]
pub enum DirScan {
    /// A live entry named `name` at this byte offset.
    Found(usize),
    /// An end-of-directory (0x00) entry comes first.
    End,
    /// Neither: the search goes on in the next sector.
    NotHere,
}

/// Scans the 32-byte entries of directory sector `s` from entry `e` for
/// `name`: the first end-of-directory entry stops the scan, and only live
/// entries are compared.
pub open spec fn scan_entries(s: Seq<u8>, name: Seq<u8>, e: int) -> DirScan
    decreases DIRENTS_PER_SECTOR - e,
{
    if e < 0 || e >= DIRENTS_PER_SECTOR {
        DirScan::NotHere
    } else {
        let off = e * DIRENT_SIZE;
        if s[off] == 0 {
            DirScan::End
        } else if dirent_live(s, off) && s.subrange(off, off + 11) == name {
            DirScan::Found(off as usize)
        } else {
            scan_entries(s, name, e + 1)
        }
    }
}

proof fn lemma_scan_found_offset(s: Seq<u8>, name: Seq<u8>, e: int)
    requires
        0 <= e,
    ensures
        scan_entries(s, name, e) matches DirScan::Found(off) ==> off % 32 == 0 && off <= 480,
    decreases DIRENTS_PER_SECTOR - e,
{
    if e < DIRENTS_PER_SECTOR {
        lemma_scan_found_offset(s, name, e + 1);
    }
}

/// Scans one directory sector for `name` (see `scan_entries`).
pub fn scan_dir_sector(b: &[u8; 512], name: &[u8; 11]) -> (r: DirScan)
    ensures
        r == scan_entries(b@, name@, 0),
        r matches DirScan::Found(off) ==> off % 32 == 0 && off <= 480,
{
    let mut e: usize = 0;
    while e < DIRENTS_PER_SECTOR
        invariant
            e <= DIRENTS_PER_SECTOR,
            scan_entries(b@, name@, 0) == scan_entries(b@, name@, e as int),
        decreases DIRENTS_PER_SECTOR - e,
    {
        proof {
            lemma_scan_found_offset(b@, name@, e as int);
        }
        let off = e * DIRENT_SIZE;
        let first = b[off];
        if first == 0 {
            return DirScan::End;
        }
        let attr = b[off + 11];
        if first != 0xE5 && attr != 0x0F && attr & 0x08 == 0 && bytes_eq_at(b, off, name) {
            return DirScan::Found(off);
        }
        e = e + 1;
    }
    DirScan::NotHere
}

/// What the sectors of one directory cluster say about `name`.
#[derive(Clone, Copy, Debug, PartialEq, Eq)]
pub enum ClusterScan {
    /// A live entry named `name`: its sector and byte offset.
    Found(u32, usize),
    /// The search ends here: an end-of-directory entry, or a sector that is
    /// not on the disk.
    Stop,
    /// Not in this cluster: the search goes on in the next one.
    Next,
}

/// Scans the directory cluster whose sectors start at `first` (there are
/// `spc` of them), from its sector `s` on, for `name`.
pub open spec fn scan_cluster(d: Map<u32, Seq<u8>>, first: u32, spc: u32, s: int, name: Seq<u8>) -> ClusterScan
    decreases spc - s,
{
    if s < 0 || s >= spc || first + s > u32::MAX {
        ClusterScan::Next
    } else {
        let sector = (first + s) as u32;
        if !d.contains_key(sector) {
            ClusterScan::Stop
        } else {
            match scan_entries(d[sector], name, 0) {
                DirScan::Found(off) => ClusterScan::Found(sector, off),
                DirScan::End => ClusterScan::Stop,
                DirScan::NotHere => scan_cluster(d, first, spc, s + 1, name),
            }
        }
    }
}

/// Looks for `name` along the directory cluster chain starting at
/// `cluster`, visiting at most `fuel` clusters.
pub open spec fn lookup_chain(d: Map<u32, Seq<u8>>, bpb: Bpb, cluster: u32, fuel: nat, name: Seq<u8>) -> Option<(u32, usize)>
    decreases fuel,
{
    if fuel == 0 {
        None
    } else {
        match cluster_sector(bpb, cluster) {
            None => None,
            Some(first) => match scan_cluster(d, first, bpb.sectors_per_cluster, 0, name) {
                ClusterScan::Found(sector, off) => Some((sector, off)),
                ClusterScan::Stop => None,
                ClusterScan::Next => match next_cluster_spec(d, bpb, cluster) {
                    Some(c) => lookup_chain(d, bpb, c, (fuel - 1) as nat, name),
                    None => None,
                },
            },
        }
    }
}

/// The first cluster recorded in the directory entry at `off` of `s`
/// (high half at bytes 20..22, low half at 26..28).
pub open spec fn dirent_cluster(s: Seq<u8>, off: int) -> u32 {
    (le16_at(s, off + 20) * 0x10000 + le16_at(s, off + 26)) as u32
}

/// The file size recorded in the directory entry at `off` of `s`.
pub open spec fn dirent_size(s: Seq<u8>, off: int) -> u32 {
    le32_at(s, off + 28) as u32
}

/// Looking `name` up in the root directory of disk `d`: its first cluster,
/// size and entry location. The chain walk visits at most `max_cluster`
/// clusters, all that a chain without a loop can have.
pub open spec fn find_in_root_spec(d: Map<u32, Seq<u8>>, bpb: Bpb, name: Seq<u8>) -> Option<(u32, u32, DirLoc)> {
    match lookup_chain(d, bpb, bpb.root_cluster, bpb.max_cluster as nat, name) {
        Some((sector, off)) => Some(
            (dirent_cluster(d[sector], off as int), dirent_size(d[sector], off as int), DirLoc { sector, offset: off }),
        ),
        None => None,
    }
}

proof fn lemma_scan_cluster_found(d: Map<u32, Seq<u8>>, first: u32, spc: u32, s: int, name: Seq<u8>)
    requires
        0 <= s,
    ensures
        scan_cluster(d, first, spc, s, name) matches ClusterScan::Found(sector, off) ==> d.contains_key(sector)
            && off % 32 == 0 && off <= 480,
    decreases spc - s,
{
    if s < spc && first + s <= u32::MAX {
        lemma_scan_found_offset(d[(first + s) as u32], name, 0);
        lemma_scan_cluster_found(d, first, spc, s + 1, name);
    }
}

proof fn lemma_lookup_chain_found(d: Map<u32, Seq<u8>>, bpb: Bpb, cluster: u32, fuel: nat, name: Seq<u8>)
    ensures
        lookup_chain(d, bpb, cluster, fuel, name) matches Some((sector, off)) ==> d.contains_key(sector)
            && off % 32 == 0 && off <= 480,
    decreases fuel,
{
    if fuel > 0 {
        if let Some(first) = cluster_sector(bpb, cluster) {
            lemma_scan_cluster_found(d, first, bpb.sectors_per_cluster, 0, name);
            if let Some(c) = next_cluster_spec(d, bpb, cluster) {
                lemma_lookup_chain_found(d, bpb, c, (fuel - 1) as nat, name);
            }
        }
    }
}

/// Reads the first-cluster and size fields of the directory entry at `off`.
fn dirent_fields(b: &[u8; 512], off: usize) -> (r: (u32, u32))
    requires
        off + 32 <= 512,
    ensures
        r == (dirent_cluster(b@, off as int), dirent_size(b@, off as int)),
{
    let hi = rd16(b, off + 20);
    let lo = rd16(b, off + 26);
    (hi * 0x10000 + lo, rd32(b, off + 28))
}

/// Looks `name` (in 11-byte 8.3 form) up in the root directory: the file's
/// first cluster, size and directory-entry location (see
/// `find_in_root_spec`).
pub fn find_in_root<D: BlockDevice>(bpb: &Bpb, dev: &mut D, name: &[u8; 11]) -> (r: Option<(u32, u32, DirLoc)>)
    ensures
        old(dev).reliable() ==> final(dev).sectors() == old(dev).sectors(),
        old(dev).reliable() ==> final(dev).reliable(),
        old(dev).reliable() ==> r == find_in_root_spec(old(dev).sectors(), *bpb, name@),
        r matches Some((_, _, loc)) ==> loc.valid() && loc.offset % 32 == 0,
{
    let ghost d = dev.sectors();
    proof {
        lemma_lookup_chain_found(d, *bpb, bpb.root_cluster, bpb.max_cluster as nat, name@);
    }
    let mut cluster = bpb.root_cluster;
    let mut fuel: u32 = bpb.max_cluster;
    let mut buf = [0u8; 512];
    while fuel > 0
        invariant
            old(dev).reliable() ==> dev.reliable() && dev.sectors() == d,
            old(dev).sectors() == d,
            old(dev).reliable() ==> lookup_chain(d, *bpb, bpb.root_cluster, bpb.max_cluster as nat, name@) == lookup_chain(
                d,
                *bpb,
                cluster,
                fuel as nat,
                name@,
            ),
            lookup_chain(d, *bpb, bpb.root_cluster, bpb.max_cluster as nat, name@) matches Some((sector, off))
                ==> d.contains_key(sector) && off % 32 == 0 && off <= 480,
        decreases fuel,
    {
        let first = match bpb.checked_cluster_sector(cluster) {
            Some(f) => f,
            None => {
                return None;
            },
        };
        let spc = bpb.sectors_per_cluster;
        let mut s: u32 = 0;
        while s < spc
            invariant
                old(dev).reliable() ==> dev.reliable() && dev.sectors() == d,
                old(dev).sectors() == d,
                    spc == bpb.sectors_per_cluster,
                fuel > 0,
                Some(first) == cluster_sector(*bpb, cluster),
                first + spc <= u32::MAX + 1,
                s <= spc,
                old(dev).reliable() ==> lookup_chain(d, *bpb, bpb.root_cluster, bpb.max_cluster as nat, name@) == lookup_chain(
                    d,
                    *bpb,
                    cluster,
                    fuel as nat,
                    name@,
                ),
                lookup_chain(d, *bpb, bpb.root_cluster, bpb.max_cluster as nat, name@) matches Some((sector, off))
                    ==> d.contains_key(sector) && off % 32 == 0 && off <= 480,
                old(dev).reliable() ==> scan_cluster(d, first, spc, 0, name@) == scan_cluster(d, first, spc, s as int, name@),
            decreases spc - s,
        {
            let sector = first + s;
            if !dev.read_sector(sector, &mut buf) {
                return None;
            }
            match scan_dir_sector(&buf, name) {
                DirScan::Found(off) => {
                    let (start, size) = dirent_fields(&buf, off);
                    return Some((start, size, DirLoc { sector, offset: off }));
                },
                DirScan::End => {
                    return None;
                },
                DirScan::NotHere => {},
            }
            s = s + 1;
        }
        match next_cluster(bpb, dev, cluster) {
            Some(c) => {
                cluster = c;
            },
            None => {
                return None;
            },
        }
        fuel = fuel - 1;
    }
    None
}

// ---------------------------------------------------------------------
// File data.
// ---------------------------------------------------------------------

/// The one open file: its first cluster (0 for an empty file that has no
/// cluster yet), its size, and where its directory entry lives.
#[derive(Clone, Copy, Debug, PartialEq, Eq)]
pub struct OpenFile {
    pub start_cluster: u32,
    pub size: u32,
    pub dirent: DirLoc,
}

impl Bpb {
    /// The geometry `parse_bpb` hands out: between 1 and 255 sectors per
    /// cluster.
    pub open spec fn usable(self) -> bool {
        1 <= self.sectors_per_cluster <= 255
    }
}

/// The `k`-th cluster of the chain starting at `start`, or `None` if the
/// chain ends (or cannot be read) before it.
pub open spec fn chain_at(d: Map<u32, Seq<u8>>, bpb: Bpb, start: u32, k: nat) -> Option<u32>
    decreases k,
{
    if k == 0 {
        Some(start)
    } else {
        match chain_at(d, bpb, start, (k - 1) as nat) {
            Some(c) => next_cluster_spec(d, bpb, c),
            None => None,
        }
    }
}

proof fn lemma_chain_ends(d: Map<u32, Seq<u8>>, bpb: Bpb, start: u32, i: nat, k: nat)
    requires
        i <= k,
        chain_at(d, bpb, start, i) is None,
    ensures
        chain_at(d, bpb, start, k) is None,
    decreases k - i,
{
    if i < k {
        lemma_chain_ends(d, bpb, start, i + 1, k);
    }
}

/// Follows `k` links of the chain from `start` (see `chain_at`).
fn walk_chain<D: BlockDevice>(bpb: &Bpb, dev: &mut D, start: u32, k: u32) -> (r: Option<u32>)
    ensures
        old(dev).reliable() ==> final(dev).sectors() == old(dev).sectors(),
        old(dev).reliable() ==> final(dev).reliable(),
        old(dev).reliable() ==> r == chain_at(old(dev).sectors(), *bpb, start, k as nat),
{
    let ghost d = dev.sectors();
    let mut cluster = start;
    let mut i: u32 = 0;
    while i < k
        invariant
            i <= k,
            old(dev).reliable() ==> dev.reliable() && dev.sectors() == d,
            old(dev).sectors() == d,
            old(dev).reliable() ==> chain_at(d, *bpb, start, i as nat) == Some(cluster),
        decreases k - i,
    {
        match next_cluster(bpb, dev, cluster) {
            Some(c) => {
                cluster = c;
            },
            None => {
                proof {
                    if old(dev).reliable() {
                        assert(chain_at(d, *bpb, start, (i + 1) as nat) == next_cluster_spec(d, *bpb, cluster));
                        lemma_chain_ends(d, *bpb, start, (i + 1) as nat, k as nat);
                    }
                }
                return None;
            },
        }
        i = i + 1;
    }
    Some(cluster)
}

/// Where byte `offset` of the file whose chain starts at `start` lives on
/// disk `d`: its sector and its offset in that sector.
pub open spec fn file_byte_pos(d: Map<u32, Seq<u8>>, bpb: Bpb, start: u32, offset: u32) -> Option<(u32, int)> {
    let cs = bpb.sectors_per_cluster * 512;
    let within = offset as int % cs;
    match chain_at(d, bpb, start, (offset as int / cs) as nat) {
        Some(c) => match cluster_sector(bpb, c) {
            Some(first) => Some(((first + within / 512) as u32, within % 512)),
            None => None,
        },
        None => None,
    }
}

/// How many bytes a read of `len` bytes at `offset` returns: no more than
/// asked for, than the rest of the sector, or than the rest of the file.
pub open spec fn read_len(size: u32, offset: u32, in_sector: int, len: u32) -> int {
    let a = if len < 512 - in_sector { len as int } else { 512 - in_sector };
    if a < size - offset { a } else { size - offset }
}

/// What a read of `len` bytes at `offset` of `file` takes from disk `d`:
/// the sector, the offset in it and the count; `None` where it returns
/// nothing (at or past the end of the file, or where the chain or the disk
/// ends first).
pub open spec fn read_file_spec(d: Map<u32, Seq<u8>>, bpb: Bpb, file: OpenFile, offset: u32, len: u32) -> Option<(u32, int, int)> {
    if offset >= file.size {
        None
    } else {
        match file_byte_pos(d, bpb, file.start_cluster, offset) {
            Some((sector, in_sector)) => if d.contains_key(sector) {
                Some((sector, in_sector, read_len(file.size, offset, in_sector, len)))
            } else {
                None
            },
            None => None,
        }
    }
}

/// Reads up to one sector's worth of `file` at `offset` into the front of
/// `out`; the number of bytes placed there (0 at the end of the file or if
/// the data could not be read).
pub fn read_file<D: BlockDevice>(bpb: &Bpb, dev: &mut D, file: &OpenFile, offset: u32, len: u32, out: &mut [u8; 512]) -> (n: u32)
    requires
        bpb.usable(),
    ensures
        old(dev).reliable() ==> final(dev).sectors() == old(dev).sectors(),
        old(dev).reliable() ==> final(dev).reliable(),
        n <= 512,
        n == 0 ==> final(out)@ == old(out)@,
        old(dev).reliable() ==> match read_file_spec(old(dev).sectors(), *bpb, *file, offset, len) {
            Some((sector, at, m)) => n == m && final(out)@ == splice(old(out)@, 0, old(dev).sectors()[sector].subrange(at, at + m)),
            None => n == 0,
        },
        n > 0 ==> offset < file.size && offset + n <= file.size && n <= len,
{
    let ghost d = dev.sectors();
    if offset >= file.size {
        return 0;
    }
    let remaining_in_file = file.size - offset;
    let cluster_size = bpb.cluster_size_bytes();
    let cluster_index = offset / cluster_size;
    let offset_in_cluster = offset % cluster_size;
    let sector_in_cluster = offset_in_cluster / 512;
    let offset_in_sector = (offset_in_cluster % 512) as usize;
    let cluster = match walk_chain(bpb, dev, file.start_cluster, cluster_index) {
        Some(c) => c,
        None => {
            return 0;
        },
    };
    let first = match bpb.checked_cluster_sector(cluster) {
        Some(f) => f,
        None => {
            return 0;
        },
    };
    proof {
        assert(offset_in_cluster / 512 < bpb.sectors_per_cluster) by (nonlinear_arith)
            requires offset_in_cluster < cluster_size, cluster_size == bpb.sectors_per_cluster * 512;
    }
    let sector = first + sector_in_cluster;
    let mut buf = [0u8; 512];
    if !dev.read_sector(sector, &mut buf) {
        return 0;
    }
    let avail_in_sector = (512 - offset_in_sector) as u32;
    let a = if len < avail_in_sector { len } else { avail_in_sector };
    let n = if a < remaining_in_file { a } else { remaining_in_file };
    let mut k: usize = 0;
    while k < n as usize
        invariant
            n <= 512 - offset_in_sector,
            offset_in_sector < 512,
            k <= n,
            forall|i: int| 0 <= i < 512 ==> #[trigger] out@[i] == (if i < k { buf@[offset_in_sector + i] } else { old(out)@[i] }),
        decreases n - k,
    {
        out[k] = buf[offset_in_sector + k];
        k = k + 1;
    }
    assert(out@ =~= splice(old(out)@, 0, buf@.subrange(offset_in_sector as int, offset_in_sector + n)));
    n
}

// ---------------------------------------------------------------------
// Directory-entry updates.
// ---------------------------------------------------------------------

/// Sector `s` with the entry at `off` recording first cluster `start`
/// (high half at bytes 20..22, low half at 26..28) and size `size` (bytes
/// 28..32), little-endian; every other byte as it was.
pub open spec fn with_dirent_fields(s: Seq<u8>, off: int, start: u32, size: u32) -> Seq<u8> {
    Seq::new(
        s.len(),
        |i: int|
            if i == off + 20 {
                ((start / 0x10000) % 256) as u8
            } else if i == off + 21 {
                (start / 0x1000000) as u8
            } else if i == off + 26 {
                (start % 256) as u8
            } else if i == off + 27 {
                ((start / 256) % 256) as u8
            } else if i == off + 28 {
                (size % 256) as u8
            } else if i == off + 29 {
                ((size / 256) % 256) as u8
            } else if i == off + 30 {
                ((size / 0x10000) % 256) as u8
            } else if i == off + 31 {
                (size / 0x1000000) as u8
            } else {
                s[i]
            },
    )
}

/// Recording first cluster `start` and size `size` in the entry at `loc`
/// of disk `d`: whether it worked, and the disk after.
pub open spec fn dirent_update_spec(d: Map<u32, Seq<u8>>, loc: DirLoc, start: u32, size: u32) -> (bool, Map<u32, Seq<u8>>) {
    if d.contains_key(loc.sector) {
        (true, d.insert(loc.sector, with_dirent_fields(d[loc.sector], loc.offset as int, start, size)))
    } else {
        (false, d)
    }
}

/// Persists a directory entry's first-cluster and size fields
/// (read-modify-write of the entry's sector).
pub fn write_dirent_update<D: BlockDevice>(dev: &mut D, loc: DirLoc, start_cluster: u32, size: u32) -> (ok: bool)
    requires
        loc.valid(),
    ensures
        old(dev).reliable() ==> final(dev).reliable(),
        old(dev).reliable() ==> (ok, final(dev).sectors()) == dirent_update_spec(old(dev).sectors(), loc, start_cluster, size),
{
    let mut buf = [0u8; 512];
    if !dev.read_sector(loc.sector, &mut buf) {
        return false;
    }
    let ghost s0 = buf@;
    let off = loc.offset;
    buf[off + 20] = ((start_cluster / 0x10000) % 256) as u8;
    buf[off + 21] = (start_cluster / 0x1000000) as u8;
    buf[off + 26] = (start_cluster % 256) as u8;
    buf[off + 27] = ((start_cluster / 256) % 256) as u8;
    buf[off + 28] = (size % 256) as u8;
    buf[off + 29] = ((size / 256) % 256) as u8;
    buf[off + 30] = ((size / 0x10000) % 256) as u8;
    buf[off + 31] = (size / 0x1000000) as u8;
    assert(buf@ =~= with_dirent_fields(s0, off as int, start_cluster, size));
    dev.write_sector(loc.sector, &buf)
}

/// Sector `s` with a fresh entry at `off`: the 11-byte `name`, the archive
/// attribute (0x20), and zeros everywhere else in the entry (no cluster,
/// zero size, zeroed timestamps).
pub open spec fn with_new_dirent(s: Seq<u8>, off: int, name: Seq<u8>) -> Seq<u8> {
    Seq::new(
        s.len(),
        |i: int|
            if off <= i < off + 11 {
                name[i - off]
            } else if i == off + 11 {
                0x20u8
            } else if off + 11 < i < off + 32 {
                0u8
            } else {
                s[i]
            },
    )
}

/// Writing a fresh entry for `name` at `loc` of disk `d`: whether it
/// worked, and the disk after.
pub open spec fn new_dirent_spec(d: Map<u32, Seq<u8>>, loc: DirLoc, name: Seq<u8>) -> (bool, Map<u32, Seq<u8>>) {
    if d.contains_key(loc.sector) {
        (true, d.insert(loc.sector, with_new_dirent(d[loc.sector], loc.offset as int, name)))
    } else {
        (false, d)
    }
}

/// Writes a brand-new directory entry for `name` at `loc`: a regular
/// file of length zero with no cluster yet.
pub fn write_new_dirent<D: BlockDevice>(dev: &mut D, loc: DirLoc, name: &[u8; 11]) -> (ok: bool)
    requires
        loc.valid(),
    ensures
        old(dev).reliable() ==> final(dev).reliable(),
        old(dev).reliable() ==> (ok, final(dev).sectors()) == new_dirent_spec(old(dev).sectors(), loc, name@),
{
    let mut buf = [0u8; 512];
    if !dev.read_sector(loc.sector, &mut buf) {
        return false;
    }
    let ghost s0 = buf@;
    let off = loc.offset;
    fill_bytes(&mut buf, off, off + DIRENT_SIZE, 0);
    write_bytes(&mut buf, off, name);
    buf[off + 11] = 0x20;
    assert(buf@ =~= with_new_dirent(s0, off as int, name@));
    dev.write_sector(loc.sector, &buf)
}

/// Shrinks `file` to `new_size` and records that in its directory entry: 1
/// on success, 0 if `new_size` is larger than the file (a file never grows
/// this way) or the entry could not be written. The size in memory changes
/// whenever `new_size` is not larger, even if the entry write fails.
pub fn truncate_file<D: BlockDevice>(dev: &mut D, file: &mut OpenFile, new_size: u32) -> (r: u32)
    requires
        old(file).dirent.valid(),
    ensures
        old(dev).reliable() ==> final(dev).reliable(),
        new_size > old(file).size ==> r == 0 && *final(file) == *old(file),
        new_size > old(file).size && old(dev).reliable() ==> final(dev).sectors() == old(dev).sectors(),
        new_size <= old(file).size ==> *final(file) == (OpenFile { size: new_size, ..*old(file) }),
        r <= 1,
        r == 1 ==> new_size <= old(file).size,
        old(dev).reliable() && new_size <= old(file).size ==> ((r == 1), final(dev).sectors()) == dirent_update_spec(
            old(dev).sectors(),
            old(file).dirent,
            old(file).start_cluster,
            new_size,
        ),
{
    if new_size > file.size {
        return 0;
    }
    file.size = new_size;
    if !write_dirent_update(dev, file.dirent, file.start_cluster, file.size) {
        return 0;
    }
    1
}

// ---------------------------------------------------------------------
// Free directory slots.
// ---------------------------------------------------------------------

/// The first free entry (first byte 0x00 or 0xE5) of directory sector `s`
/// from entry `e` on.
pub open spec fn free_entry_from(s: Seq<u8>, e: int) -> Option<usize>
    decreases DIRENTS_PER_SECTOR - e,
{
    if e < 0 || e >= DIRENTS_PER_SECTOR {
        None
    } else if s[e * 32] == 0 || s[e * 32] == 0xE5 {
        Some((e * 32) as usize)
    } else {
        free_entry_from(s, e + 1)
    }
}

/// The first free entry in the sectors of the directory cluster starting at
/// `first`, from its sector `s` on.
pub open spec fn free_in_cluster(d: Map<u32, Seq<u8>>, first: u32, spc: u32, s: int) -> ClusterScan
    decreases spc - s,
{
    if s < 0 || s >= spc || first + s > u32::MAX {
        ClusterScan::Next
    } else {
        let sector = (first + s) as u32;
        if !d.contains_key(sector) {
            ClusterScan::Stop
        } else {
            match free_entry_from(d[sector], 0) {
                Some(off) => ClusterScan::Found(sector, off),
                None => free_in_cluster(d, first, spc, s + 1),
            }
        }
    }
}

/// Where a walk of the root directory for a free entry ends.
#[derive(Clone, Copy, Debug, PartialEq, Eq)]
pub enum SlotWalk {
    /// A free entry: its sector and offset.
    Found(u32, usize),
    /// Every cluster of the chain is full; this is its last cluster.
    Full(u32),
    /// A sector or cluster could not be read or addressed.
    Failed,
}

/// Walks the directory chain from `cluster` (at most `fuel` clusters) for
/// the first free entry.
pub open spec fn free_slot_walk(d: Map<u32, Seq<u8>>, bpb: Bpb, cluster: u32, fuel: nat) -> SlotWalk
    decreases fuel,
{
    if fuel == 0 {
        SlotWalk::Failed
    } else {
        match cluster_sector(bpb, cluster) {
            None => SlotWalk::Failed,
            Some(first) => match free_in_cluster(d, first, bpb.sectors_per_cluster, 0) {
                ClusterScan::Found(sector, off) => SlotWalk::Found(sector, off),
                ClusterScan::Stop => SlotWalk::Failed,
                ClusterScan::Next => match next_cluster_spec(d, bpb, cluster) {
                    Some(c) => free_slot_walk(d, bpb, c, (fuel - 1) as nat),
                    None => SlotWalk::Full(cluster),
                },
            },
        }
    }
}

/// A sector of zeros.
pub open spec fn zero_sector() -> Seq<u8> {
    Seq::new(512, |i: int| 0u8)
}

/// Zeroing sectors `first + s .. first + spc` of disk `d` in order: whether
/// every write worked, and the disk after.
pub open spec fn zero_sectors(d: Map<u32, Seq<u8>>, first: u32, spc: u32, s: int) -> (bool, Map<u32, Seq<u8>>)
    decreases spc - s,
{
    if s < 0 || s >= spc || first + s > u32::MAX {
        (true, d)
    } else if !d.contains_key((first + s) as u32) {
        (false, d)
    } else {
        zero_sectors(d.insert((first + s) as u32, zero_sector()), first, spc, s + 1)
    }
}

/// Growing the root directory past its last cluster `tail` on disk `d`: a
/// fresh cluster is allocated, linked after `tail` and zero-filled, and its
/// first entry is the free slot. The slot (if all of that worked) and the
/// disk after.
pub open spec fn grow_root_spec(d: Map<u32, Seq<u8>>, bpb: Bpb, tail: u32) -> (Option<DirLoc>, Map<u32, Seq<u8>>) {
    let (a, d1) = alloc_spec(d, bpb);
    match a {
        None => (None, d1),
        Some(nc) => {
            let (ok, d2) = write_fat_spec(d1, bpb, tail, nc);
            if !ok {
                (None, d2)
            } else {
                match cluster_sector(bpb, nc) {
                    None => (None, d2),
                    Some(first) => {
                        let (zok, d3) = zero_sectors(d2, first, bpb.sectors_per_cluster, 0);
                        (if zok { Some(DirLoc { sector: first, offset: 0 }) } else { None }, d3)
                    },
                }
            }
        },
    }
}

/// Finding a free root-directory entry on disk `d`, growing the directory
/// by a cluster when every entry is taken: the slot and the disk after.
pub open spec fn free_slot_spec(d: Map<u32, Seq<u8>>, bpb: Bpb) -> (Option<DirLoc>, Map<u32, Seq<u8>>) {
    match free_slot_walk(d, bpb, bpb.root_cluster, bpb.max_cluster as nat) {
        SlotWalk::Found(sector, off) => (Some(DirLoc { sector, offset: off }), d),
        SlotWalk::Failed => (None, d),
        SlotWalk::Full(tail) => grow_root_spec(d, bpb, tail),
    }
}

proof fn lemma_free_entry_offset(s: Seq<u8>, e: int)
    requires
        0 <= e,
    ensures
        free_entry_from(s, e) matches Some(off) ==> off % 32 == 0 && off <= 480,
    decreases DIRENTS_PER_SECTOR - e,
{
    if e < DIRENTS_PER_SECTOR {
        lemma_free_entry_offset(s, e + 1);
    }
}

/// The first free entry of one directory sector.
fn free_entry_in_sector(b: &[u8; 512]) -> (r: Option<usize>)
    ensures
        r == free_entry_from(b@, 0),
        r matches Some(off) ==> off % 32 == 0 && off <= 480,
{
    let mut e: usize = 0;
    while e < DIRENTS_PER_SECTOR
        invariant
            e <= DIRENTS_PER_SECTOR,
            free_entry_from(b@, 0) == free_entry_from(b@, e as int),
        decreases DIRENTS_PER_SECTOR - e,
    {
        proof {
            lemma_free_entry_offset(b@, e as int);
        }
        let off = e * DIRENT_SIZE;
        if b[off] == 0 || b[off] == 0xE5 {
            return Some(off);
        }
        e = e + 1;
    }
    None
}

/// Zero-fills the `spc` sectors starting at `first` (see `zero_sectors`).
fn zero_cluster<D: BlockDevice>(dev: &mut D, first: u32, spc: u32) -> (ok: bool)
    requires
        first + spc <= u32::MAX + 1,
    ensures
        old(dev).reliable() ==> final(dev).reliable(),
        old(dev).reliable() ==> (ok, final(dev).sectors()) == zero_sectors(old(dev).sectors(), first, spc, 0),
{
    let zero = [0u8; 512];
    assert(zero@ =~= zero_sector());
    let mut s: u32 = 0;
    while s < spc
        invariant
            s <= spc,
            first + spc <= u32::MAX + 1,
            zero@ == zero_sector(),
            old(dev).reliable() ==> dev.reliable(),
            old(dev).reliable() ==> zero_sectors(old(dev).sectors(), first, spc, 0) == zero_sectors(dev.sectors(), first, spc, s as int),
        decreases spc - s,
    {
        if !dev.write_sector(first + s, &zero) {
            return false;
        }
        s = s + 1;
    }
    true
}

/// Allocates, links and zero-fills one more root-directory cluster after
/// `tail` (see `grow_root_spec`).
fn grow_root<D: BlockDevice>(bpb: &Bpb, dev: &mut D, tail: u32) -> (r: Option<DirLoc>)
    ensures
        old(dev).reliable() ==> final(dev).reliable(),
        old(dev).reliable() ==> (r, final(dev).sectors()) == grow_root_spec(old(dev).sectors(), *bpb, tail),
        r matches Some(loc) ==> loc.valid() && loc.offset == 0,
{
    let new_cluster = match alloc_cluster(bpb, dev) {
        Some(c) => c,
        None => {
            return None;
        },
    };
    if !write_fat_entry(bpb, dev, tail, new_cluster) {
        return None;
    }
    let first = match bpb.checked_cluster_sector(new_cluster) {
        Some(f) => f,
        None => {
            return None;
        },
    };
    if !zero_cluster(dev, first, bpb.sectors_per_cluster) {
        return None;
    }
    Some(DirLoc { sector: first, offset: 0 })
}

/// Finds the first free root-directory entry (end-of-directory 0x00 or a
/// deleted 0xE5 entry), growing the root directory by one zero-filled
/// cluster when every existing entry is taken (see `free_slot_spec`).
pub fn find_free_root_slot<D: BlockDevice>(bpb: &Bpb, dev: &mut D) -> (r: Option<DirLoc>)
    ensures
        old(dev).reliable() ==> final(dev).reliable(),
        old(dev).reliable() ==> (r, final(dev).sectors()) == free_slot_spec(old(dev).sectors(), *bpb),
        r matches Some(loc) ==> loc.valid() && loc.offset % 32 == 0,
{
    let ghost d = dev.sectors();
    let mut cluster = bpb.root_cluster;
    let mut fuel: u32 = bpb.max_cluster;
    let mut buf = [0u8; 512];
    while fuel > 0
        invariant
            old(dev).reliable() ==> dev.reliable() && dev.sectors() == d,
            old(dev).sectors() == d,
            old(dev).reliable() ==> free_slot_walk(d, *bpb, bpb.root_cluster, bpb.max_cluster as nat) == free_slot_walk(d, *bpb, cluster, fuel as nat),
        decreases fuel,
    {
        let first = match bpb.checked_cluster_sector(cluster) {
            Some(f) => f,
            None => {
                return None;
            },
        };
        let spc = bpb.sectors_per_cluster;
        let mut s: u32 = 0;
        while s < spc
            invariant
                old(dev).reliable() ==> dev.reliable() && dev.sectors() == d,
                old(dev).sectors() == d,
                    spc == bpb.sectors_per_cluster,
                fuel > 0,
                Some(first) == cluster_sector(*bpb, cluster),
                first + spc <= u32::MAX + 1,
                s <= spc,
                old(dev).reliable() ==> free_slot_walk(d, *bpb, bpb.root_cluster, bpb.max_cluster as nat) == free_slot_walk(d, *bpb, cluster, fuel as nat),
                old(dev).reliable() ==> free_in_cluster(d, first, spc, 0) == free_in_cluster(d, first, spc, s as int),
            decreases spc - s,
        {
            let sector = first + s;
            if !dev.read_sector(sector, &mut buf) {
                return None;
            }
            match free_entry_in_sector(&buf) {
                Some(off) => {
                    return Some(DirLoc { sector, offset: off });
                },
                None => {},
            }
            s = s + 1;
        }
        match next_cluster(bpb, dev, cluster) {
            Some(c) => {
                cluster = c;
            },
            None => {
                return grow_root(bpb, dev, cluster);
            },
        }
        fuel = fuel - 1;
    }
    None
}

// ---------------------------------------------------------------------
// Opening and writing files.
// ---------------------------------------------------------------------

/// Opening `name` on disk `d`, creating an empty file (a new root-directory
/// entry, no cluster) when it does not exist and `create` is set: the
/// file's first cluster, size and entry location, and the disk after.
pub open spec fn open_or_create_spec(d: Map<u32, Seq<u8>>, bpb: Bpb, name: Seq<u8>, create: bool) -> (Option<(u32, u32, DirLoc)>, Map<u32, Seq<u8>>) {
    match find_in_root_spec(d, bpb, name) {
        Some(found) => (Some(found), d),
        None => if !create {
            (None, d)
        } else {
            let (slot, d1) = free_slot_spec(d, bpb);
            match slot {
                None => (None, d1),
                Some(loc) => {
                    let (ok, d2) = new_dirent_spec(d1, loc, name);
                    (if ok { Some((0u32, 0u32, loc)) } else { None }, d2)
                },
            }
        },
    }
}

/// Opens root-directory file `name` (11-byte 8.3 form), creating it empty
/// if it does not exist and `create` is set (see `open_or_create_spec`).
pub fn open_or_create<D: BlockDevice>(bpb: &Bpb, dev: &mut D, name: &[u8; 11], create: bool) -> (r: Option<(u32, u32, DirLoc)>)
    ensures
        old(dev).reliable() ==> final(dev).reliable(),
        old(dev).reliable() ==> (r, final(dev).sectors()) == open_or_create_spec(old(dev).sectors(), *bpb, name@, create),
        r matches Some((_, _, loc)) ==> loc.valid(),
{
    if let Some(found) = find_in_root(bpb, dev, name) {
        return Some(found);
    }
    if !create {
        return None;
    }
    let loc = match find_free_root_slot(bpb, dev) {
        Some(l) => l,
        None => {
            return None;
        },
    };
    if !write_new_dirent(dev, loc, name) {
        return None;
    }
    Some((0, 0, loc))
}

/// Following `k` links from `cluster` on disk `d`, extending the chain
/// wherever it ends (allocate a cluster, link it in): the cluster reached,
/// if every step worked, and the disk after.
pub open spec fn extend_chain(d: Map<u32, Seq<u8>>, bpb: Bpb, cluster: u32, k: nat) -> (Option<u32>, Map<u32, Seq<u8>>)
    decreases k,
{
    if k == 0 {
        (Some(cluster), d)
    } else {
        match next_cluster_spec(d, bpb, cluster) {
            Some(c) => extend_chain(d, bpb, c, (k - 1) as nat),
            None => {
                let (a, d1) = alloc_spec(d, bpb);
                match a {
                    None => (None, d1),
                    Some(nc) => {
                        let (ok, d2) = write_fat_spec(d1, bpb, cluster, nc);
                        if !ok {
                            (None, d2)
                        } else {
                            extend_chain(d2, bpb, nc, (k - 1) as nat)
                        }
                    },
                }
            },
        }
    }
}

/// Follows `k` links from `cluster`, extending the chain where it ends (see
/// `extend_chain`).
fn walk_extend<D: BlockDevice>(bpb: &Bpb, dev: &mut D, cluster: u32, k: u32) -> (r: Option<u32>)
    ensures
        old(dev).reliable() ==> final(dev).reliable(),
        old(dev).reliable() ==> (r, final(dev).sectors()) == extend_chain(old(dev).sectors(), *bpb, cluster, k as nat),
{
    let mut cur = cluster;
    let mut i: u32 = 0;
    while i < k
        invariant
            i <= k,
            old(dev).reliable() ==> dev.reliable(),
            old(dev).reliable() ==> extend_chain(old(dev).sectors(), *bpb, cluster, k as nat) == extend_chain(
                dev.sectors(),
                *bpb,
                cur,
                (k - i) as nat,
            ),
        decreases k - i,
    {
        cur = match next_cluster(bpb, dev, cur) {
            Some(c) => c,
            None => {
                let new_cluster = match alloc_cluster(bpb, dev) {
                    Some(c) => c,
                    None => {
                        return None;
                    },
                };
                if !write_fat_entry(bpb, dev, cur, new_cluster) {
                    return None;
                }
                new_cluster
            },
        };
        i = i + 1;
    }
    Some(cur)
}

/// The offset within its sector of byte `offset` of a file.
pub open spec fn in_sector(bpb: Bpb, offset: u32) -> int {
    (offset as int % (bpb.sectors_per_cluster * 512)) % 512
}

/// How many bytes a write of `len` bytes puts into the sector it starts
/// in: no more than asked for, nor than the rest of the sector.
pub open spec fn write_len(at: int, len: u32) -> int {
    if len < 512 - at { len as int } else { 512 - at }
}

/// Storing the first `write_len(at, len)` bytes of `data` at byte `at` of
/// `sector` of disk `d`, as the bytes at `offset` of `file`: the count
/// stored (0 on failure), the file after (its size grown to cover them),
/// and the disk after (the directory entry updated too).
pub open spec fn store_spec(d: Map<u32, Seq<u8>>, file: OpenFile, sector: u32, at: int, offset: u32, len: u32, data: Seq<u8>) -> (u32, OpenFile, Map<u32, Seq<u8>>) {
    if !d.contains_key(sector) {
        (0, file, d)
    } else {
        let n = write_len(at, len);
        let d3 = d.insert(sector, splice(d[sector], at, data.subrange(0, n)));
        let end = offset + n;
        let f2 = OpenFile { size: if end > file.size { end as u32 } else { file.size }, ..file };
        let (ok, d4) = dirent_update_spec(d3, f2.dirent, f2.start_cluster, f2.size);
        (if ok { n as u32 } else { 0 }, f2, d4)
    }
}

/// Stores data in one sector of a file and records the file's new size
/// (see `store_spec`).
fn store_in_sector<D: BlockDevice>(dev: &mut D, file: &mut OpenFile, sector: u32, at: usize, offset: u32, len: u32, data: &[u8; 512]) -> (n: u32)
    requires
        at < 512,
        old(file).dirent.valid(),
        offset + write_len(at as int, len) <= u32::MAX,
    ensures
        old(dev).reliable() ==> final(dev).reliable(),
        final(file).dirent == old(file).dirent,
        final(file).start_cluster == old(file).start_cluster,
        final(file).size >= old(file).size,
        final(file).size != old(file).size ==> final(file).size == offset + write_len(at as int, len),
        n > 0 ==> n == write_len(at as int, len) && final(file).size >= offset + n,
        old(dev).reliable() ==> (n, *final(file), final(dev).sectors()) == store_spec(
            old(dev).sectors(),
            *old(file),
            sector,
            at as int,
            offset,
            len,
            data@,
        ),
{
    let mut buf = [0u8; 512];
    if !dev.read_sector(sector, &mut buf) {
        return 0;
    }
    let avail_in_sector = (512 - at) as u32;
    let n = if len < avail_in_sector { len } else { avail_in_sector };
    let ghost s0 = buf@;
    let mut k: usize = 0;
    while k < n as usize
        invariant
            n <= 512 - at,
            at < 512,
            k <= n,
            forall|i: int|
                0 <= i < 512 ==> #[trigger] buf@[i] == (if at <= i < at + k {
                    data@[i - at]
                } else {
                    s0[i]
                }),
        decreases n - k,
    {
        buf[at + k] = data[k];
        k = k + 1;
    }
    assert(buf@ =~= splice(s0, at as int, data@.subrange(0, n as int)));
    if !dev.write_sector(sector, &buf) {
        return 0;
    }
    let new_end = offset + n;
    if new_end > file.size {
        file.size = new_end;
    }
    if !write_dirent_update(dev, file.dirent, file.start_cluster, file.size) {
        return 0;
    }
    n
}

/// Writing the first bytes of `data` (as many as `write_len` allows) at
/// `offset` of `file` on disk `d`: the count written (0 on any failure),
/// the file after, and the disk after. A write may start at most at the
/// current end of the file; an empty file gets its first cluster, and the
/// chain is extended as far as the write needs; the size grows to cover
/// the write, never shrinks; and the new size and first cluster are
/// recorded in the directory entry.
pub open spec fn write_file_spec(d: Map<u32, Seq<u8>>, bpb: Bpb, file: OpenFile, offset: u32, len: u32, data: Seq<u8>) -> (u32, OpenFile, Map<u32, Seq<u8>>) {
    if offset > file.size {
        (0, file, d)
    } else {
        let cs = bpb.sectors_per_cluster * 512;
        let within = offset as int % cs;
        let at = within % 512;
        let (a, d1) = if file.start_cluster == 0 { alloc_spec(d, bpb) } else { (Some(file.start_cluster), d) };
        match a {
            None => (0, file, d1),
            Some(start) => {
                let f1 = OpenFile { start_cluster: start, ..file };
                let (cl, d2) = extend_chain(d1, bpb, start, (offset as int / cs) as nat);
                match cl {
                    None => (0, f1, d2),
                    Some(c) => match cluster_sector(bpb, c) {
                        None => (0, f1, d2),
                        Some(first) => store_spec(d2, f1, (first + within / 512) as u32, at, offset, len, data),
                    },
                }
            },
        }
    }
}

/// Writes up to one sector's worth of `data` at `offset` into `file`,
/// allocating and extending its cluster chain as needed and recording the
/// new size and first cluster in its directory entry (see
/// `write_file_spec`). Returns the number of bytes written: 0 if `offset`
/// is past the end of the file, the disk is full, or a sector could not be
/// read or written.
pub fn write_file<D: BlockDevice>(bpb: &Bpb, dev: &mut D, file: &mut OpenFile, offset: u32, len: u32, data: &[u8; 512]) -> (n: u32)
    requires
        bpb.usable(),
        old(file).dirent.valid(),
        offset <= old(file).size ==> offset + write_len(in_sector(*bpb, offset), len) <= u32::MAX,
    ensures
        old(dev).reliable() ==> final(dev).reliable(),
        final(file).dirent == old(file).dirent,
        n <= 512,
        offset > old(file).size ==> n == 0 && *final(file) == *old(file) && final(dev).sectors() == old(dev).sectors(),
        final(file).size >= old(file).size,
        final(file).size != old(file).size ==> final(file).size == offset + write_len(in_sector(*bpb, offset), len),
        n > 0 ==> n == write_len(in_sector(*bpb, offset), len) && final(file).size >= offset + n,
        old(dev).reliable() ==> (n, *final(file), final(dev).sectors()) == write_file_spec(
            old(dev).sectors(),
            *bpb,
            *old(file),
            offset,
            len,
            data@,
        ),
{
    if offset > file.size {
        return 0;
    }
    let cluster_size = bpb.cluster_size_bytes();
    let cluster_index = offset / cluster_size;
    let offset_in_cluster = offset % cluster_size;
    let sector_in_cluster = offset_in_cluster / 512;
    let offset_in_sector = (offset_in_cluster % 512) as usize;
    let start = if file.start_cluster == 0 {
        let c = match alloc_cluster(bpb, dev) {
            Some(c) => c,
            None => {
                return 0;
            },
        };
        file.start_cluster = c;
        c
    } else {
        file.start_cluster
    };
    let cluster = match walk_extend(bpb, dev, start, cluster_index) {
        Some(c) => c,
        None => {
            return 0;
        },
    };
    let first = match bpb.checked_cluster_sector(cluster) {
        Some(f) => f,
        None => {
            return 0;
        },
    };
    proof {
        assert(offset_in_cluster / 512 < bpb.sectors_per_cluster) by (nonlinear_arith)
            requires offset_in_cluster < cluster_size, cluster_size == bpb.sectors_per_cluster * 512;
    }
    let sector = first + sector_in_cluster;
    store_in_sector(dev, file, sector, offset_in_sector, offset, len, data)
}

// ---------------------------------------------------------------------
// Laws of the FAT.
// ---------------------------------------------------------------------

proof fn lemma_le32_of_word(w: u32)
    ensures
        (w % 256) as u8 as nat + ((w / 0x100) % 256) as u8 as nat * 0x100 + ((w / 0x10000) % 256) as u8 as nat
            * 0x10000 + (w / 0x1000000) as u8 as nat * 0x1000000 == w,
{
    assert((w % 256) as u8 as nat + ((w / 0x100) % 256) as u8 as nat * 0x100 + ((w / 0x10000) % 256) as u8 as nat
        * 0x10000 + (w / 0x1000000) as u8 as nat * 0x1000000 == w) by (bit_vector);
}

/// The entry at `off` of `with_fat_word(s, off, value)` holds the low 28
/// bits of `value`.
proof fn lemma_with_fat_word_entry(s: Seq<u8>, off: int, value: u32)
    requires
        0 <= off,
        off + 4 <= s.len(),
    ensures
        le32_at(with_fat_word(s, off, value), off) % 0x1000_0000 == value as nat % 0x1000_0000,
        with_fat_word(s, off, value).len() == s.len(),
        forall|i: int| 0 <= i < s.len() && !(off <= i < off + 4) ==> #[trigger] with_fat_word(s, off, value)[i] == s[i],
{
    let old_word = le32_at(s, off);
    let hi = (old_word / 0x1000_0000) as u32;
    let lo = value & 0x0FFF_FFFF;
    assert(old_word < 0x1_0000_0000);
    assert(hi <= 15);
    assert(value & 0x0FFF_FFFFu32 == value % 0x1000_0000) by (bit_vector);
    assert((hi * 0x1000_0000 + lo) as u32 == hi * 0x1000_0000 + lo && ((hi * 0x1000_0000 + lo) as u32) % 0x1000_0000 == lo)
        by (bit_vector)
        requires hi <= 15, lo < 0x1000_0000;
    let w = (hi * 0x1000_0000 + lo) as u32;
    lemma_le32_of_word(w);
    let t = with_fat_word(s, off, value);
    assert(t[off] == (w % 256) as u8);
    assert(t[off + 1] == ((w / 0x100) % 256) as u8);
    assert(t[off + 2] == ((w / 0x10000) % 256) as u8);
    assert(t[off + 3] == (w / 0x1000000) as u8);
}

/// After writing cluster `c`'s entry as `value` to one FAT copy, that
/// copy's entry for `c` reads back as the low 28 bits of `value`.
proof fn lemma_write_fat_copy_reads_back(d: Map<u32, Seq<u8>>, fat_base: u32, c: u32, value: u32)
    requires
        write_fat_copy(d, fat_base, c, value).0,
        forall|l: u32| d.contains_key(l) ==> #[trigger] d[l].len() == 512,
    ensures
        ({
            let d2 = write_fat_copy(d, fat_base, c, value).1;
            let (sec, off) = fat_entry_pos(fat_base, c).unwrap();
            d2.contains_key(sec) && le32_at(d2[sec], off) % 0x1000_0000 == value as nat % 0x1000_0000
                && d2.dom() == d.dom() && forall|l: u32| #[trigger] d2.contains_key(l) ==> d2[l].len() == 512
        }),
{
    let (sec, off) = fat_entry_pos(fat_base, c).unwrap();
    assert(0 <= off && off + 4 <= 512) by {
        assert((c as int * 4) % 512 <= 508) by (nonlinear_arith);
    }
    lemma_with_fat_word_entry(d[sec], off, value);
    let d2 = write_fat_copy(d, fat_base, c, value).1;
    assert(d2.dom() =~= d.dom());
}

/// Both FAT copies agree after a successful entry write: cluster `c`'s
/// entry reads as the low 28 bits of `value` in the first copy and in the
/// second (the copy `fat_sz32` sectors further on).
pub proof fn lemma_fat_write_mirrors(d: Map<u32, Seq<u8>>, bpb: Bpb, c: u32, value: u32)
    requires
        forall|l: u32| d.contains_key(l) ==> #[trigger] d[l].len() == 512,
        write_fat_spec(d, bpb, c, value).0,
    ensures
        raw_fat_entry(write_fat_spec(d, bpb, c, value).1, bpb, c) == Some((value as nat % 0x1000_0000) as u32),
        raw_fat_entry(
            write_fat_spec(d, bpb, c, value).1,
            Bpb { fat_begin_sector: (bpb.fat_begin_sector + bpb.fat_sz32) as u32, ..bpb },
            c,
        ) == Some((value as nat % 0x1000_0000) as u32),
{
    reveal(raw_fat_entry);
    let b1 = bpb.fat_begin_sector;
    let b2 = (bpb.fat_begin_sector + bpb.fat_sz32) as u32;
    let d1 = write_fat_copy(d, b1, c, value).1;
    let d2 = write_fat_copy(d1, b2, c, value).1;
    lemma_write_fat_copy_reads_back(d, b1, c, value);
    lemma_write_fat_copy_reads_back(d1, b2, c, value);
    let (s1, o1) = fat_entry_pos(b1, c).unwrap();
    let (s2, o2) = fat_entry_pos(b2, c).unwrap();
    assert(o1 == o2);
    assert(0 <= o1 && o1 + 4 <= 512) by {
        assert((c as int * 4) % 512 <= 508) by (nonlinear_arith);
    }
    if s1 != s2 {
        assert(d2[s1] == d1[s1]);
    } else {
        lemma_with_fat_word_entry(d1[s1], o1, value);
    }
}

proof fn lemma_scan_free_found(d: Map<u32, Seq<u8>>, bpb: Bpb, s: int)
    ensures
        scan_free(d, bpb, s) matches FreeScan::Found(x) ==> raw_fat_entry(d, bpb, x) == Some(0u32),
    decreases bpb.max_cluster + 1 - s,
{
    if s <= bpb.max_cluster && s >= 0 {
        lemma_scan_free_found(d, bpb, s + 1);
    }
}

/// A cluster just allocated is claimed: the next allocation on the disk
/// that results never hands out the same cluster.
pub proof fn lemma_alloc_claims(d: Map<u32, Seq<u8>>, bpb: Bpb)
    requires
        forall|l: u32| d.contains_key(l) ==> #[trigger] d[l].len() == 512,
        alloc_spec(d, bpb).0 is Some,
    ensures
        alloc_spec(alloc_spec(d, bpb).1, bpb).0 != alloc_spec(d, bpb).0,
{
    let c = alloc_spec(d, bpb).0.unwrap();
    let d2 = alloc_spec(d, bpb).1;
    lemma_fat_write_mirrors(d, bpb, c, FAT32_EOC_MIN);
    assert(raw_fat_entry(d2, bpb, c) == Some(0x0FFF_FFF8u32));
    lemma_scan_free_found(d2, bpb, 2);
}

/// A sane volume layout: both FAT copies lie before the data area, the FAT
/// has room for an entry for every cluster up to `max_cluster`, and every
/// cluster number is below the end-of-chain markers.
pub open spec fn layout_ok(bpb: Bpb) -> bool {
    &&& bpb.fat_begin_sector + 2 * bpb.fat_sz32 <= bpb.first_data_sector
    &&& (bpb.max_cluster + 1) * 4 <= bpb.fat_sz32 * 512
    &&& bpb.max_cluster < FAT32_EOC_MIN
}

/// Every cluster among the first `k + 1` of the chain from `x` on disk `d`
/// is a valid cluster number (at most `max_cluster`).
pub open spec fn chain_valid(d: Map<u32, Seq<u8>>, bpb: Bpb, x: u32, k: nat) -> bool {
    forall|j: nat| j <= k ==> (#[trigger] chain_at(d, bpb, x, j) matches Some(c) ==> c <= bpb.max_cluster)
}

/// Disks `d` and `d2` agree on every sector before the data area.
pub open spec fn same_below_data(d: Map<u32, Seq<u8>>, d2: Map<u32, Seq<u8>>, bpb: Bpb) -> bool {
    forall|l: u32| l < bpb.first_data_sector ==> #[trigger] d2.contains_key(l) == d.contains_key(l) && (d.contains_key(l) ==> d2[l] == d[l])
}

proof fn lemma_chain_frame(d: Map<u32, Seq<u8>>, d2: Map<u32, Seq<u8>>, bpb: Bpb, x: u32, k: nat)
    requires
        layout_ok(bpb),
        chain_valid(d, bpb, x, k),
        same_below_data(d, d2, bpb),
    ensures
        chain_at(d2, bpb, x, k) == chain_at(d, bpb, x, k),
    decreases k,
{
    reveal(raw_fat_entry);
    if k > 0 {
        assert(chain_valid(d, bpb, x, (k - 1) as nat));
        lemma_chain_frame(d, d2, bpb, x, (k - 1) as nat);
        if let Some(c) = chain_at(d, bpb, x, (k - 1) as nat) {
            assert(c <= bpb.max_cluster);
            assert(c as int * 4 / 512 < bpb.fat_sz32) by (nonlinear_arith)
                requires c <= bpb.max_cluster, (bpb.max_cluster + 1) * 4 <= bpb.fat_sz32 * 512;
            let sec = bpb.fat_begin_sector + (c as int * 4) / 512;
            assert(sec < bpb.first_data_sector);
            assert(raw_fat_entry(d2, bpb, c) == raw_fat_entry(d, bpb, c));
        }
    }
}

proof fn lemma_chain_at_step(d: Map<u32, Seq<u8>>, bpb: Bpb, x: u32, k: nat)
    requires
        k > 0,
    ensures
        chain_at(d, bpb, x, k) == match next_cluster_spec(d, bpb, x) {
            Some(c1) => chain_at(d, bpb, c1, (k - 1) as nat),
            None => None,
        },
    decreases k,
{
    assert(chain_at(d, bpb, x, k) == match chain_at(d, bpb, x, (k - 1) as nat) {
        Some(c) => next_cluster_spec(d, bpb, c),
        None => None,
    });
    if k == 1 {
        assert(chain_at(d, bpb, x, 0) == Some(x));
        if let Some(c1) = next_cluster_spec(d, bpb, x) {
            assert(chain_at(d, bpb, c1, 0) == Some(c1));
        }
    } else {
        lemma_chain_at_step(d, bpb, x, (k - 1) as nat);
        if let Some(c1) = next_cluster_spec(d, bpb, x) {
            assert(chain_at(d, bpb, c1, (k - 1) as nat) == match chain_at(d, bpb, c1, (k - 2) as nat) {
                Some(c) => next_cluster_spec(d, bpb, c),
                None => None,
            });
        }
    }
}

proof fn lemma_scan_free_range(d: Map<u32, Seq<u8>>, bpb: Bpb, s: int)
    requires
        s >= 2,
    ensures
        scan_free(d, bpb, s) matches FreeScan::Found(x) ==> s <= x <= bpb.max_cluster && raw_fat_entry(d, bpb, x)
            == Some(0u32),
    decreases bpb.max_cluster + 1 - s,
{
    if s <= bpb.max_cluster {
        lemma_scan_free_range(d, bpb, s + 1);
    }
}

/// Sectors all hold 512 bytes.
pub open spec fn sectors_512(d: Map<u32, Seq<u8>>) -> bool {
    forall|l: u32| d.contains_key(l) ==> #[trigger] d[l].len() == 512
}

proof fn lemma_write_fat_copy_shape(d: Map<u32, Seq<u8>>, base: u32, y: u32, v: u32)
    requires
        sectors_512(d),
    ensures
        write_fat_copy(d, base, y, v).1.dom() == d.dom(),
        sectors_512(write_fat_copy(d, base, y, v).1),
        forall|l: u32| l != fat_entry_pos(base, y).unwrap().0 ==> #[trigger] write_fat_copy(d, base, y, v).1[l] == d[l],
{
    if write_fat_copy(d, base, y, v).0 {
        lemma_write_fat_copy_reads_back(d, base, y, v);
    }
}

/// Writing cluster `y`'s entry leaves the first-copy entry of every other
/// valid cluster `z` as it was.
proof fn lemma_write_fat_frame(d: Map<u32, Seq<u8>>, bpb: Bpb, y: u32, v: u32, z: u32)
    requires
        layout_ok(bpb),
        sectors_512(d),
        y <= bpb.max_cluster,
        z <= bpb.max_cluster,
        z != y,
    ensures
        raw_fat_entry(write_fat_spec(d, bpb, y, v).1, bpb, z) == raw_fat_entry(d, bpb, z),
        write_fat_spec(d, bpb, y, v).1.dom() == d.dom(),
        sectors_512(write_fat_spec(d, bpb, y, v).1),
{
    reveal(raw_fat_entry);
    let b1 = bpb.fat_begin_sector;
    let b2 = (bpb.fat_begin_sector + bpb.fat_sz32) as u32;
    lemma_write_fat_copy_shape(d, b1, y, v);
    let d1 = write_fat_copy(d, b1, y, v).1;
    lemma_write_fat_copy_shape(d1, b2, y, v);
    assert(z as int * 4 / 512 < bpb.fat_sz32) by (nonlinear_arith)
        requires z <= bpb.max_cluster, (bpb.max_cluster + 1) * 4 <= bpb.fat_sz32 * 512;
    assert(y as int * 4 / 512 < bpb.fat_sz32) by (nonlinear_arith)
        requires y <= bpb.max_cluster, (bpb.max_cluster + 1) * 4 <= bpb.fat_sz32 * 512;
    let (sz, oz) = fat_entry_pos(b1, z).unwrap();
    let (s1, o1) = fat_entry_pos(b1, y).unwrap();
    assert(0 <= oz && oz + 4 <= 512 && 0 <= o1 && o1 + 4 <= 512) by {
        assert((z as int * 4) % 512 <= 508) by (nonlinear_arith);
        assert((y as int * 4) % 512 <= 508) by (nonlinear_arith);
    }
    if write_fat_copy(d, b1, y, v).0 && sz == s1 {
        assert(oz + 4 <= o1 || o1 + 4 <= oz) by (nonlinear_arith)
            requires
                z != y,
                z as int * 4 / 512 == y as int * 4 / 512,
                oz == (z as int * 4) % 512,
                o1 == (y as int * 4) % 512,
        ;
        lemma_with_fat_word_entry(d[s1], o1, v);
        assert(d1[sz][oz] == d[sz][oz]);
        assert(d1[sz][oz + 1] == d[sz][oz + 1]);
        assert(d1[sz][oz + 2] == d[sz][oz + 2]);
        assert(d1[sz][oz + 3] == d[sz][oz + 3]);
    }
    assert(raw_fat_entry(d1, bpb, z) == raw_fat_entry(d, bpb, z));
}

proof fn lemma_chain_prefix_links(d: Map<u32, Seq<u8>>, bpb: Bpb, x: u32, i: nat, j: nat)
    requires
        j < i,
        chain_at(d, bpb, x, i) is Some,
    ensures
        chain_at(d, bpb, x, j) is Some,
        chain_at(d, bpb, x, j + 1) is Some,
        next_cluster_spec(d, bpb, chain_at(d, bpb, x, j).unwrap()) == chain_at(d, bpb, x, j + 1),
{
    if chain_at(d, bpb, x, j + 1) is None {
        lemma_chain_ends(d, bpb, x, j + 1, i);
    }
    if chain_at(d, bpb, x, j) is None {
        lemma_chain_ends(d, bpb, x, j, i);
    }
}

proof fn lemma_chain_entries_frame(d: Map<u32, Seq<u8>>, d2: Map<u32, Seq<u8>>, bpb: Bpb, x: u32, k: nat)
    requires
        forall|j: nat|
            j < k ==> (#[trigger] chain_at(d, bpb, x, j) matches Some(c) ==> raw_fat_entry(d2, bpb, c) == raw_fat_entry(
                d,
                bpb,
                c,
            )),
    ensures
        chain_at(d2, bpb, x, k) == chain_at(d, bpb, x, k),
    decreases k,
{
    if k > 0 {
        lemma_chain_entries_frame(d, d2, bpb, x, (k - 1) as nat);
    }
}

proof fn lemma_self_loop(d: Map<u32, Seq<u8>>, bpb: Bpb, y: u32, j: nat)
    requires
        next_cluster_spec(d, bpb, y) == Some(y),
    ensures
        chain_at(d, bpb, y, j) == Some(y),
    decreases j,
{
    if j > 0 {
        lemma_self_loop(d, bpb, y, (j - 1) as nat);
    }
}

#[verifier::rlimit(100)]
proof fn lemma_extend_link_step(d: Map<u32, Seq<u8>>, bpb: Bpb, x0: u32, i: nat, cur: u32, rem: nat)
    requires
        rem > 0,
        chain_at(d, bpb, x0, i) == Some(cur),
        chain_valid(d, bpb, x0, i),
        chain_valid(d, bpb, cur, rem),
        next_cluster_spec(d, bpb, cur) is Some,
    ensures
        ({
            let c1 = next_cluster_spec(d, bpb, cur).unwrap();
            &&& chain_at(d, bpb, x0, i + 1) == Some(c1)
            &&& chain_valid(d, bpb, x0, i + 1)
            &&& chain_valid(d, bpb, c1, (rem - 1) as nat)
            &&& extend_chain(d, bpb, cur, rem) == extend_chain(d, bpb, c1, (rem - 1) as nat)
        }),
{
    let c1 = next_cluster_spec(d, bpb, cur).unwrap();
    assert(chain_at(d, bpb, x0, i + 1) == Some(c1));
    assert(chain_at(d, bpb, cur, 0) == Some(cur));
    assert(chain_at(d, bpb, cur, 1) == Some(c1));
    assert(chain_valid(d, bpb, cur, rem));
    assert(chain_at(d, bpb, cur, 1) matches Some(c) ==> c <= bpb.max_cluster);
    assert(c1 <= bpb.max_cluster);
    assert forall|j: nat| j <= i + 1 implies (#[trigger] chain_at(d, bpb, x0, j) matches Some(c) ==> c <= bpb.max_cluster) by {
        if j <= i {
            assert(chain_valid(d, bpb, x0, i));
        }
    }
    assert forall|j: nat| j <= (rem - 1) as nat implies (#[trigger] chain_at(d, bpb, c1, j) matches Some(c) ==> c
        <= bpb.max_cluster) by {
        lemma_chain_at_step(d, bpb, cur, j + 1);
        assert(chain_valid(d, bpb, cur, rem));
        assert(chain_at(d, bpb, cur, j + 1) matches Some(c) ==> c <= bpb.max_cluster);
    }
}

/// What an allocation does to the FAT: the cluster it returns is valid,
/// was free, and is now marked end-of-chain; every other valid cluster's
/// entry is as it was.
proof fn lemma_alloc_facts(d: Map<u32, Seq<u8>>, bpb: Bpb)
    requires
        layout_ok(bpb),
        sectors_512(d),
        alloc_spec(d, bpb).0 is Some,
    ensures
        ({
            let nc = alloc_spec(d, bpb).0.unwrap();
            let d1 = alloc_spec(d, bpb).1;
            &&& 2 <= nc <= bpb.max_cluster
            &&& raw_fat_entry(d, bpb, nc) == Some(0u32)
            &&& raw_fat_entry(d1, bpb, nc) == Some(0x0FFF_FFF8u32)
            &&& sectors_512(d1)
            &&& forall|z: u32| z <= bpb.max_cluster && z != nc ==> #[trigger] raw_fat_entry(d1, bpb, z) == raw_fat_entry(d, bpb, z)
        }),
{
    let nc = alloc_spec(d, bpb).0.unwrap();
    lemma_scan_free_range(d, bpb, 2);
    lemma_fat_write_mirrors(d, bpb, nc, FAT32_EOC_MIN);
    lemma_write_fat_frame(d, bpb, nc, FAT32_EOC_MIN, 0);
    assert forall|z: u32| z <= bpb.max_cluster && z != nc implies #[trigger] raw_fat_entry(alloc_spec(d, bpb).1, bpb, z)
        == raw_fat_entry(d, bpb, z) by {
        lemma_write_fat_frame(d, bpb, nc, FAT32_EOC_MIN, z);
    }
}

/// What linking `nc` after `cur` does to the FAT: `cur`'s entry now
/// points at `nc`; every other valid cluster's entry is as it was.
proof fn lemma_link_facts(d: Map<u32, Seq<u8>>, bpb: Bpb, cur: u32, nc: u32)
    requires
        layout_ok(bpb),
        sectors_512(d),
        cur <= bpb.max_cluster,
        2 <= nc <= bpb.max_cluster,
        write_fat_spec(d, bpb, cur, nc).0,
    ensures
        ({
            let d2 = write_fat_spec(d, bpb, cur, nc).1;
            &&& raw_fat_entry(d2, bpb, cur) == Some(nc)
            &&& next_cluster_spec(d2, bpb, cur) == Some(nc)
            &&& sectors_512(d2)
            &&& forall|z: u32| z <= bpb.max_cluster && z != cur ==> #[trigger] raw_fat_entry(d2, bpb, z) == raw_fat_entry(d, bpb, z)
        }),
{
    lemma_fat_write_mirrors(d, bpb, cur, nc);
    lemma_write_fat_frame(d, bpb, cur, nc, if cur == 0 { 1u32 } else { 0u32 });
    assert forall|z: u32| z <= bpb.max_cluster && z != cur implies #[trigger] raw_fat_entry(write_fat_spec(d, bpb, cur, nc).1, bpb, z)
        == raw_fat_entry(d, bpb, z) by {
        lemma_write_fat_frame(d, bpb, cur, nc, z);
    }
}

proof fn lemma_extend_alloc_step(d: Map<u32, Seq<u8>>, bpb: Bpb, x0: u32, i: nat, cur: u32, rem: nat)
    requires
        rem > 0,
        layout_ok(bpb),
        sectors_512(d),
        chain_at(d, bpb, x0, i) == Some(cur),
        chain_valid(d, bpb, x0, i),
        chain_valid(d, bpb, cur, rem),
        next_cluster_spec(d, bpb, cur) is None,
        extend_chain(d, bpb, cur, rem).0 is Some,
    ensures
        ({
            let nc = alloc_spec(d, bpb).0.unwrap();
            let d2 = write_fat_spec(alloc_spec(d, bpb).1, bpb, cur, nc).1;
            &&& sectors_512(d2)
            &&& chain_at(d2, bpb, x0, i + 1) == Some(nc)
            &&& chain_valid(d2, bpb, x0, i + 1)
            &&& chain_valid(d2, bpb, nc, (rem - 1) as nat)
            &&& extend_chain(d, bpb, cur, rem) == extend_chain(d2, bpb, nc, (rem - 1) as nat)
        }),
{
    assert(chain_at(d, bpb, cur, 0) == Some(cur));
    assert(cur <= bpb.max_cluster);
    let d1 = alloc_spec(d, bpb).1;
    let nc = alloc_spec(d, bpb).0.unwrap();
    lemma_alloc_facts(d, bpb);
    assert(write_fat_spec(d1, bpb, cur, nc).0);
    let d2 = write_fat_spec(d1, bpb, cur, nc).1;
    lemma_link_facts(d1, bpb, cur, nc);
    assert(extend_chain(d, bpb, cur, rem) == extend_chain(d2, bpb, nc, (rem - 1) as nat));
    assert forall|j: nat| j < i implies (#[trigger] chain_at(d, bpb, x0, j) matches Some(c) ==> raw_fat_entry(d2, bpb, c)
        == raw_fat_entry(d, bpb, c)) by {
        lemma_chain_prefix_links(d, bpb, x0, i, j);
        let cj = chain_at(d, bpb, x0, j).unwrap();
        assert(chain_valid(d, bpb, x0, i));
        assert(cj <= bpb.max_cluster);
        assert(raw_fat_entry(d2, bpb, cj) == raw_fat_entry(d1, bpb, cj));
        assert(raw_fat_entry(d1, bpb, cj) == raw_fat_entry(d, bpb, cj));
    }
    lemma_chain_entries_frame(d, d2, bpb, x0, i);
    assert(chain_at(d2, bpb, x0, i + 1) == Some(nc));
    assert forall|j: nat| j <= i + 1 implies (#[trigger] chain_at(d2, bpb, x0, j) matches Some(c) ==> c <= bpb.max_cluster) by {
        if j <= i {
            lemma_chain_entries_frame(d, d2, bpb, x0, j);
            assert(chain_valid(d, bpb, x0, i));
            assert(chain_at(d, bpb, x0, j) matches Some(c) ==> c <= bpb.max_cluster);
        }
    }
    if nc == cur {
        assert forall|j: nat| j <= (rem - 1) as nat implies (#[trigger] chain_at(d2, bpb, nc, j) matches Some(c) ==> c
            <= bpb.max_cluster) by {
            lemma_self_loop(d2, bpb, nc, j);
        }
    } else {
        assert(raw_fat_entry(d2, bpb, nc) == raw_fat_entry(d1, bpb, nc));
        assert(next_cluster_spec(d2, bpb, nc) is None);
        assert(chain_at(d2, bpb, nc, 0) == Some(nc));
        assert(chain_at(d2, bpb, nc, 1) is None);
        assert forall|j: nat| j <= (rem - 1) as nat implies (#[trigger] chain_at(d2, bpb, nc, j) matches Some(c) ==> c
            <= bpb.max_cluster) by {
            if j >= 1 {
                lemma_chain_ends(d2, bpb, nc, 1, j);
            }
        }
    }
}

/// Extending a chain keeps what was there and links in what was added:
/// when `extend_chain` from the `i`-th cluster `cur` of the chain from `x0`
/// reaches a cluster, the chain from `x0` on the disk after reaches the
/// same cluster `rem` links further, through valid cluster numbers only.
proof fn lemma_extend_reaches(d: Map<u32, Seq<u8>>, bpb: Bpb, x0: u32, i: nat, cur: u32, rem: nat)
    requires
        layout_ok(bpb),
        sectors_512(d),
        chain_at(d, bpb, x0, i) == Some(cur),
        chain_valid(d, bpb, x0, i),
        chain_valid(d, bpb, cur, rem),
        extend_chain(d, bpb, cur, rem).0 is Some,
    ensures
        chain_at(extend_chain(d, bpb, cur, rem).1, bpb, x0, i + rem) == extend_chain(d, bpb, cur, rem).0,
        chain_valid(extend_chain(d, bpb, cur, rem).1, bpb, x0, i + rem),
        sectors_512(extend_chain(d, bpb, cur, rem).1),
    decreases rem,
{
    if rem > 0 {
        if let Some(c1) = next_cluster_spec(d, bpb, cur) {
            lemma_extend_link_step(d, bpb, x0, i, cur, rem);
            lemma_extend_reaches(d, bpb, x0, i + 1, c1, (rem - 1) as nat);
        } else {
            lemma_extend_alloc_step(d, bpb, x0, i, cur, rem);
            let nc = alloc_spec(d, bpb).0.unwrap();
            let d2 = write_fat_spec(alloc_spec(d, bpb).1, bpb, cur, nc).1;
            lemma_extend_reaches(d2, bpb, x0, i + 1, nc, (rem - 1) as nat);
        }
    }
}

/// The sector a write at `offset` of `file` lands in on disk `d`, after
/// whatever allocation it makes first; `None` if it fails before that.
pub open spec fn write_target(d: Map<u32, Seq<u8>>, bpb: Bpb, file: OpenFile, offset: u32) -> Option<u32> {
    let cs = bpb.sectors_per_cluster * 512;
    let within = offset as int % cs;
    let (a, d1) = if file.start_cluster == 0 { alloc_spec(d, bpb) } else { (Some(file.start_cluster), d) };
    match a {
        None => None,
        Some(start) => match extend_chain(d1, bpb, start, (offset as int / cs) as nat).0 {
            None => None,
            Some(c) => match cluster_sector(bpb, c) {
                None => None,
                Some(first) => Some((first + within / 512) as u32),
            },
        },
    }
}

/// Reading back what was just written: after `write_file_spec` writes
/// `n > 0` bytes of `data` at `offset` of `file` (allocating the file's
/// first cluster and extending its chain as needed), a read of `n` bytes at
/// `offset` of the updated file on the updated disk returns exactly those
/// bytes. Stated for a sanely laid-out volume, a file whose existing chain
/// holds valid cluster numbers, and a directory entry that sits in the data
/// area but not in the sector the write lands in.
pub proof fn lemma_write_then_read(d: Map<u32, Seq<u8>>, bpb: Bpb, file: OpenFile, offset: u32, len: u32, data: Seq<u8>)
    requires
        sectors_512(d),
        data.len() == 512,
        bpb.usable(),
        layout_ok(bpb),
        file.dirent.valid(),
        offset <= file.size,
        offset + write_len(in_sector(bpb, offset), len) <= u32::MAX,
        file.start_cluster != 0 ==> chain_valid(
            d,
            bpb,
            file.start_cluster,
            (offset as int / (bpb.sectors_per_cluster * 512)) as nat,
        ),
        file.dirent.sector >= bpb.first_data_sector,
        write_target(d, bpb, file, offset) != Some(file.dirent.sector),
    ensures
        ({
            let (n, f2, d2) = write_file_spec(d, bpb, file, offset, len, data);
            n > 0 ==> (read_file_spec(d2, bpb, f2, offset, n) matches Some((sector, at, m)) && m == n
                && d2[sector].subrange(at, at + m) == data.subrange(0, n as int))
        }),
{
    let cs = bpb.sectors_per_cluster * 512;
    let k = (offset as int / cs) as nat;
    let within = offset as int % cs;
    let at = within % 512;
    let (n, f2, d4) = write_file_spec(d, bpb, file, offset, len, data);
    if n > 0 {
        let (a, d1) = if file.start_cluster == 0 { alloc_spec(d, bpb) } else { (Some(file.start_cluster), d) };
        let start = a.unwrap();
        if file.start_cluster == 0 {
            lemma_alloc_facts(d, bpb);
            assert(next_cluster_spec(d1, bpb, start) is None);
            assert(chain_at(d1, bpb, start, 0) == Some(start));
            assert(chain_at(d1, bpb, start, 1) is None);
            assert forall|j: nat| j <= k implies (#[trigger] chain_at(d1, bpb, start, j) matches Some(c) ==> c
                <= bpb.max_cluster) by {
                if j >= 1 {
                    lemma_chain_ends(d1, bpb, start, 1, j);
                }
            }
        }
        assert(chain_valid(d1, bpb, start, k));
        assert(chain_at(d1, bpb, start, 0) == Some(start));
        assert(chain_valid(d1, bpb, start, 0)) by {
            assert(chain_at(d1, bpb, start, 0) matches Some(c) ==> c <= bpb.max_cluster);
        }
        lemma_extend_reaches(d1, bpb, start, 0, start, k);
        let d2 = extend_chain(d1, bpb, start, k).1;
        let c = extend_chain(d1, bpb, start, k).0.unwrap();
        assert(chain_at(d2, bpb, start, k) == Some(c));
        let first = cluster_sector(bpb, c).unwrap();
        let sector = (first + within / 512) as u32;
        assert(first >= bpb.first_data_sector) by (nonlinear_arith)
            requires first == bpb.first_data_sector + (c - 2) * bpb.sectors_per_cluster, c >= 2;
        assert(sector >= bpb.first_data_sector) by {
            assert(within / 512 >= 0) by (nonlinear_arith) requires within >= 0;
        }
        assert(0 <= at < 512) by (nonlinear_arith) requires within >= 0, at == within % 512;
        let m = write_len(at, len);
        let d3 = d2.insert(sector, splice(d2[sector], at, data.subrange(0, m)));
        assert(d4 == d3.insert(
            file.dirent.sector,
            with_dirent_fields(d3[file.dirent.sector], file.dirent.offset as int, start, f2.size),
        ));
        assert(same_below_data(d2, d4, bpb));
        lemma_chain_frame(d2, d4, bpb, start, k);
        assert(d4[sector] == d3[sector]);
        assert(d4[sector].subrange(at, at + m) =~= data.subrange(0, n as int));
    }
}

proof fn lemma_free_entry_range(s: Seq<u8>, e: int)
    requires
        0 <= e,
    ensures
        free_entry_from(s, e) matches Some(off) ==> off % 32 == 0 && e * 32 <= off <= 480 && (s[off as int] == 0
            || s[off as int] == 0xE5),
    decreases DIRENTS_PER_SECTOR - e,
{
    if e < DIRENTS_PER_SECTOR {
        lemma_free_entry_range(s, e + 1);
    }
}

/// Without a free entry from `e` on there is no end-of-directory entry
/// either, so a scan from `e` does not stop there.
proof fn lemma_no_free_no_end(s: Seq<u8>, name: Seq<u8>, e: int)
    requires
        0 <= e,
        free_entry_from(s, e) is None,
    ensures
        !(scan_entries(s, name, e) is End),
    decreases DIRENTS_PER_SECTOR - e,
{
    if e < DIRENTS_PER_SECTOR {
        lemma_no_free_no_end(s, name, e + 1);
    }
}

/// In a sector whose first free entry from `e` is at `off`, and where no
/// live entry named `name` comes first, writing a new entry for `name` at
/// `off` makes the scan find it there.
proof fn lemma_new_entry_found(s: Seq<u8>, name: Seq<u8>, e: int, off: usize)
    requires
        0 <= e,
        s.len() == 512,
        name.len() == 11,
        name[0] != 0 && name[0] != 0xE5,
        free_entry_from(s, e) == Some(off),
        !(scan_entries(s, name, e) is Found),
    ensures
        scan_entries(with_new_dirent(s, off as int, name), name, e) == DirScan::Found(off),
    decreases DIRENTS_PER_SECTOR - e,
{
    lemma_free_entry_range(s, e);
    let t = with_new_dirent(s, off as int, name);
    let o = e * 32;
    if s[o] == 0 || s[o] == 0xE5 {
        assert(off == o);
        assert(t[o + 11] == 0x20u8);
        assert((0x20u8 & 0x08u8) == 0) by (bit_vector);
        assert(t.subrange(o, o + 11) =~= name);
    } else {
        assert(off >= o + 32);
        assert(t.subrange(o, o + 11) =~= s.subrange(o, o + 11));
        assert(t[o] == s[o]);
        assert(t[o + 11] == s[o + 11]);
        lemma_new_entry_found(s, name, e + 1, off);
    }
}

/// Every sector of the cluster at `first` from sector `s` on is on the disk
/// and has no free entry when the scan for a free entry moves on.
proof fn lemma_free_in_cluster_next(d: Map<u32, Seq<u8>>, first: u32, spc: u32, s: int, name: Seq<u8>)
    requires
        0 <= s,
        free_in_cluster(d, first, spc, s) is Next,
    ensures
        forall|i: int|
            s <= i < spc && first + i <= u32::MAX ==> d.contains_key((first + i) as u32) && #[trigger] free_entry_from(
                d[(first + i) as u32],
                0,
            ) is None,
        !(scan_cluster(d, first, spc, s, name) is Stop),
    decreases spc - s,
{
    if s < spc && first + s <= u32::MAX {
        lemma_free_in_cluster_next(d, first, spc, s + 1, name);
        lemma_no_free_no_end(d[(first + s) as u32], name, 0);
    }
}

proof fn lemma_free_in_cluster_found(d: Map<u32, Seq<u8>>, first: u32, spc: u32, s: int)
    requires
        0 <= s,
    ensures
        free_in_cluster(d, first, spc, s) matches ClusterScan::Found(sector, off) ==> d.contains_key(sector)
            && free_entry_from(d[sector], 0) == Some(off) && first <= sector,
    decreases spc - s,
{
    if s < spc && first + s <= u32::MAX {
        lemma_free_in_cluster_found(d, first, spc, s + 1);
    }
}

/// Scanning a directory cluster none of whose sectors has a free entry
/// reads the same before and after a sector that has one changes.
proof fn lemma_scan_cluster_unchanged(d: Map<u32, Seq<u8>>, d2: Map<u32, Seq<u8>>, first: u32, spc: u32, s: int, name: Seq<u8>, sector: u32)
    requires
        0 <= s,
        d2 == d.insert(sector, d2[sector]),
        d.contains_key(sector),
        free_entry_from(d[sector], 0) is Some,
        forall|i: int|
            s <= i < spc && first + i <= u32::MAX ==> #[trigger] free_entry_from(d[(first + i) as u32], 0) is None,
    ensures
        scan_cluster(d2, first, spc, s, name) == scan_cluster(d, first, spc, s, name),
    decreases spc - s,
{
    if s < spc && first + s <= u32::MAX {
        lemma_scan_cluster_unchanged(d, d2, first, spc, s + 1, name, sector);
    }
}

/// Within the cluster holding the first free entry, the new entry is found.
proof fn lemma_new_entry_found_in_cluster(d: Map<u32, Seq<u8>>, first: u32, spc: u32, s: int, name: Seq<u8>, sector: u32, off: usize)
    requires
        0 <= s,
        sectors_512(d),
        name.len() == 11,
        name[0] != 0 && name[0] != 0xE5,
        free_in_cluster(d, first, spc, s) == ClusterScan::Found(sector, off),
        !(scan_cluster(d, first, spc, s, name) is Found),
    ensures
        scan_cluster(d.insert(sector, with_new_dirent(d[sector], off as int, name)), first, spc, s, name) == ClusterScan::Found(
            sector,
            off,
        ),
    decreases spc - s,
{
    let d2 = d.insert(sector, with_new_dirent(d[sector], off as int, name));
    if s < spc && first + s <= u32::MAX {
        let sec = (first + s) as u32;
        match free_entry_from(d[sec], 0) {
            Some(o) => {
                assert(sec == sector && o == off);
                lemma_new_entry_found(d[sec], name, 0, off);
            },
            None => {
                lemma_free_in_cluster_found(d, first, spc, s + 1);
                assert(sec != sector);
                lemma_no_free_no_end(d[sec], name, 0);
                assert(d2[sec] == d[sec]);
                lemma_new_entry_found_in_cluster(d, first, spc, s + 1, name, sector, off);
            },
        }
    }
}

proof fn lemma_free_slot_walk_found(d: Map<u32, Seq<u8>>, bpb: Bpb, c: u32, f: nat)
    ensures
        free_slot_walk(d, bpb, c, f) matches SlotWalk::Found(sector, off) ==> d.contains_key(sector) && free_entry_from(
            d[sector],
            0,
        ) == Some(off) && sector >= bpb.first_data_sector,
    decreases f,
{
    if f > 0 {
        if let Some(first) = cluster_sector(bpb, c) {
            lemma_free_in_cluster_found(d, first, bpb.sectors_per_cluster, 0);
            assert(first >= bpb.first_data_sector) by (nonlinear_arith)
                requires
                    first == bpb.first_data_sector + (c - 2) * bpb.sectors_per_cluster,
                    c >= 2,
            ;
            if let Some(c1) = next_cluster_spec(d, bpb, c) {
                lemma_free_slot_walk_found(d, bpb, c1, (f - 1) as nat);
            }
        }
    }
}

proof fn lemma_created_entry_found(d: Map<u32, Seq<u8>>, bpb: Bpb, c: u32, f: nat, name: Seq<u8>, sector: u32, off: usize)
    requires
        sectors_512(d),
        layout_ok(bpb),
        name.len() == 11,
        name[0] != 0 && name[0] != 0xE5,
        chain_valid(d, bpb, c, f),
        free_slot_walk(d, bpb, c, f) == SlotWalk::Found(sector, off),
        lookup_chain(d, bpb, c, f, name) is None,
    ensures
        lookup_chain(d.insert(sector, with_new_dirent(d[sector], off as int, name)), bpb, c, f, name) == Some((sector, off)),
    decreases f,
{
    let d2 = d.insert(sector, with_new_dirent(d[sector], off as int, name));
    let first = cluster_sector(bpb, c).unwrap();
    let spc = bpb.sectors_per_cluster;
    lemma_free_slot_walk_found(d, bpb, c, f);
    match free_in_cluster(d, first, spc, 0) {
        ClusterScan::Found(_, _) => {
            lemma_new_entry_found_in_cluster(d, first, spc, 0, name, sector, off);
        },
        _ => {
            let c1 = next_cluster_spec(d, bpb, c).unwrap();
            lemma_free_in_cluster_next(d, first, spc, 0, name);
            lemma_scan_cluster_unchanged(d, d2, first, spc, 0, name, sector);
            assert(chain_at(d, bpb, c, 0) == Some(c));
            assert(c <= bpb.max_cluster);
            assert(c as int * 4 / 512 < bpb.fat_sz32) by (nonlinear_arith)
                requires c <= bpb.max_cluster, (bpb.max_cluster + 1) * 4 <= bpb.fat_sz32 * 512;
            assert(raw_fat_entry(d2, bpb, c) == raw_fat_entry(d, bpb, c)) by {
                reveal(raw_fat_entry);
            }
            assert forall|j: nat| j <= (f - 1) as nat implies (#[trigger] chain_at(d, bpb, c1, j) matches Some(x) ==> x
                <= bpb.max_cluster) by {
                lemma_chain_at_step(d, bpb, c, j + 1);
                assert(chain_valid(d, bpb, c, f));
                assert(chain_at(d, bpb, c, j + 1) matches Some(x) ==> x <= bpb.max_cluster);
            }
            lemma_created_entry_found(d, bpb, c1, (f - 1) as nat, name, sector, off);
        },
    }
}

proof fn lemma_chain_period(d: Map<u32, Seq<u8>>, bpb: Bpb, x: u32, i: nat, p: nat, n: nat)
    requires
        i <= n,
        chain_at(d, bpb, x, i + p) == chain_at(d, bpb, x, i),
    ensures
        chain_at(d, bpb, x, n + p) == chain_at(d, bpb, x, n),
    decreases n - i,
{
    if n > i {
        lemma_chain_period(d, bpb, x, i, p, (n - 1) as nat);
        assert(((n + p) - 1) as nat == (n - 1) as nat + p);
        assert(chain_at(d, bpb, x, n + p) == match chain_at(d, bpb, x, ((n + p) - 1) as nat) {
            Some(c) => next_cluster_spec(d, bpb, c),
            None => None,
        });
        assert(chain_at(d, bpb, x, n) == match chain_at(d, bpb, x, (n - 1) as nat) {
            Some(c) => next_cluster_spec(d, bpb, c),
            None => None,
        });
    }
}

/// A chain that ends after its `k`-th cluster never visits a cluster twice
/// on the way.
proof fn lemma_chain_distinct(d: Map<u32, Seq<u8>>, bpb: Bpb, x: u32, k: nat)
    requires
        chain_at(d, bpb, x, k) is Some,
        chain_at(d, bpb, x, k + 1) is None,
    ensures
        forall|i: nat, j: nat|
            #![trigger chain_at(d, bpb, x, i), chain_at(d, bpb, x, j)]
            i < j <= k ==> chain_at(d, bpb, x, i) != chain_at(d, bpb, x, j),
{
    assert forall|i: nat, j: nat| #![trigger chain_at(d, bpb, x, i), chain_at(d, bpb, x, j)] i < j <= k implies chain_at(
        d,
        bpb,
        x,
        i,
    ) != chain_at(d, bpb, x, j) by {
        if chain_at(d, bpb, x, i) == chain_at(d, bpb, x, j) {
            let p = (j - i) as nat;
            let n = (k + 1 - p) as nat;
            assert(i + p == j);
            lemma_chain_period(d, bpb, x, i, p, n);
            assert(n + p == k + 1);
            if chain_at(d, bpb, x, n) is None {
                lemma_chain_ends(d, bpb, x, n, k);
            }
        }
    }
}

proof fn lemma_chain_ge2(d: Map<u32, Seq<u8>>, bpb: Bpb, x: u32, j: nat)
    requires
        x >= 2,
    ensures
        chain_at(d, bpb, x, j) matches Some(c) ==> c >= 2,
{
    if j > 0 {
        assert(chain_at(d, bpb, x, j) == match chain_at(d, bpb, x, (j - 1) as nat) {
            Some(c) => next_cluster_spec(d, bpb, c),
            None => None,
        });
    }
}

/// A chain of valid cluster numbers that ends after its `k`-th cluster is
/// shorter than the number of data clusters: `k + 1` distinct clusters
/// from 2 to `max_cluster`.
proof fn lemma_chain_short(d: Map<u32, Seq<u8>>, bpb: Bpb, x: u32, k: nat)
    requires
        x >= 2,
        chain_valid(d, bpb, x, k),
        chain_at(d, bpb, x, k) is Some,
        chain_at(d, bpb, x, k + 1) is None,
    ensures
        k + 2 <= bpb.max_cluster,
{
    lemma_chain_distinct(d, bpb, x, k);
    let s = Seq::new((k + 1) as nat, |j: int| chain_at(d, bpb, x, j as nat).unwrap() as int);
    assert forall|j: int| 0 <= j < s.len() implies 2 <= #[trigger] s[j] <= bpb.max_cluster && chain_at(
        d,
        bpb,
        x,
        j as nat,
    ) is Some by {
        if chain_at(d, bpb, x, j as nat) is None {
            lemma_chain_ends(d, bpb, x, j as nat, k);
        }
        lemma_chain_ge2(d, bpb, x, j as nat);
        assert(chain_at(d, bpb, x, j as nat) matches Some(c) ==> c <= bpb.max_cluster);
    }
    assert(s.no_duplicates()) by {
        assert forall|i: int, j: int| 0 <= i < s.len() && 0 <= j < s.len() && i != j implies s[i] != s[j] by {
            assert(s[i] == chain_at(d, bpb, x, i as nat).unwrap() as int);
            assert(s[j] == chain_at(d, bpb, x, j as nat).unwrap() as int);
            assert(chain_at(d, bpb, x, i as nat) is Some);
            assert(chain_at(d, bpb, x, j as nat) is Some);
            if i < j {
                assert(chain_at(d, bpb, x, i as nat) != chain_at(d, bpb, x, j as nat));
            } else {
                assert(chain_at(d, bpb, x, j as nat) != chain_at(d, bpb, x, i as nat));
            }
        }
    }
    s.unique_seq_to_set();
    assert(2 <= s[0] <= bpb.max_cluster);
    let r = vstd::set_lib::set_int_range(2, bpb.max_cluster + 1);
    vstd::set_lib::lemma_int_range(2, bpb.max_cluster + 1);
    assert(s.to_set().subset_of(r)) by {
        assert forall|v: int| s.to_set().contains(v) implies r.contains(v) by {
            assert(s.contains(v));
            let idx = choose|idx: int| 0 <= idx < s.len() && s[idx] == v;
            assert(2 <= s[idx] <= bpb.max_cluster);
        }
    }
    vstd::set_lib::lemma_len_subset(s.to_set(), r);
}

/// Where a walk for a free root entry that found every cluster full
/// stopped: `k` links in, at the chain's last cluster.
proof fn lemma_walk_full_steps(d: Map<u32, Seq<u8>>, bpb: Bpb, c: u32, f: nat, tail: u32) -> (k: nat)
    requires
        free_slot_walk(d, bpb, c, f) == SlotWalk::Full(tail),
    ensures
        k < f,
        chain_at(d, bpb, c, k) == Some(tail),
        next_cluster_spec(d, bpb, tail) is None,
        cluster_sector(bpb, c) is Some,
    decreases f,
{
    if let Some(c1) = next_cluster_spec(d, bpb, c) {
        let k1 = lemma_walk_full_steps(d, bpb, c1, (f - 1) as nat, tail);
        lemma_chain_at_step(d, bpb, c, k1 + 1);
        k1 + 1
    } else {
        assert(chain_at(d, bpb, c, 0) == Some(c));
        0
    }
}

proof fn lemma_raw_fat_below_data(d: Map<u32, Seq<u8>>, d2: Map<u32, Seq<u8>>, bpb: Bpb, z: u32)
    requires
        layout_ok(bpb),
        z <= bpb.max_cluster,
        same_below_data(d, d2, bpb),
    ensures
        raw_fat_entry(d2, bpb, z) == raw_fat_entry(d, bpb, z),
{
    reveal(raw_fat_entry);
    assert(z as int * 4 / 512 < bpb.fat_sz32) by (nonlinear_arith)
        requires z <= bpb.max_cluster, (bpb.max_cluster + 1) * 4 <= bpb.fat_sz32 * 512;
    let sec = bpb.fat_begin_sector + (z as int * 4) / 512;
    assert(sec < bpb.first_data_sector);
}

/// Disks `d` and `d2` agree on every sector from `from` on outside
/// `lo..hi`.
pub open spec fn same_outside(d: Map<u32, Seq<u8>>, d2: Map<u32, Seq<u8>>, lo: int, hi: int, from: int) -> bool {
    forall|l: u32| l >= from && !(lo <= l < hi) ==> #[trigger] d2.contains_key(l) == d.contains_key(l) && (d.contains_key(l)
        ==> d2[l] == d[l])
}

/// Updating a FAT entry leaves the data area alone.
proof fn lemma_write_fat_keeps_data(d: Map<u32, Seq<u8>>, bpb: Bpb, y: u32, v: u32)
    requires
        layout_ok(bpb),
        sectors_512(d),
        y <= bpb.max_cluster,
    ensures
        same_outside(d, write_fat_spec(d, bpb, y, v).1, 0, 0, bpb.first_data_sector as int),
        write_fat_spec(d, bpb, y, v).1.dom() == d.dom(),
        sectors_512(write_fat_spec(d, bpb, y, v).1),
{
    let b1 = bpb.fat_begin_sector;
    let b2 = (bpb.fat_begin_sector + bpb.fat_sz32) as u32;
    lemma_write_fat_copy_shape(d, b1, y, v);
    let d1 = write_fat_copy(d, b1, y, v).1;
    lemma_write_fat_copy_shape(d1, b2, y, v);
    assert(y as int * 4 / 512 < bpb.fat_sz32) by (nonlinear_arith)
        requires y <= bpb.max_cluster, (bpb.max_cluster + 1) * 4 <= bpb.fat_sz32 * 512;
    assert(fat_entry_pos(b1, y).unwrap().0 < bpb.first_data_sector);
    if bpb.fat_begin_sector + bpb.fat_sz32 <= u32::MAX {
        assert(fat_entry_pos(b2, y).unwrap().0 < bpb.first_data_sector);
    }
}

/// Zero-filling sectors `first + s ..` of a cluster touches no other
/// sector, adds none, and leaves zeros behind when it works.
proof fn lemma_zero_sectors_frame(d: Map<u32, Seq<u8>>, first: u32, spc: u32, s: int)
    requires
        0 <= s,
    ensures
        same_outside(d, zero_sectors(d, first, spc, s).1, first + s, first + spc, 0),
        zero_sectors(d, first, spc, s).1.dom() == d.dom(),
        zero_sectors(d, first, spc, s).0 && s < spc && first + s <= u32::MAX ==> d.contains_key((first + s) as u32)
            && zero_sectors(d, first, spc, s).1[(first + s) as u32] == zero_sector(),
    decreases spc - s,
{
    if s < spc && first + s <= u32::MAX && d.contains_key((first + s) as u32) {
        let d1 = d.insert((first + s) as u32, zero_sector());
        lemma_zero_sectors_frame(d1, first, spc, s + 1);
        assert(d1.dom() == d.dom());
    }
}

/// Scanning a directory cluster reads only its own sectors.
proof fn lemma_scan_cluster_frame(d: Map<u32, Seq<u8>>, d2: Map<u32, Seq<u8>>, first: u32, spc: u32, s: int, name: Seq<u8>)
    requires
        0 <= s,
        forall|l: u32| first + s <= l < first + spc ==> #[trigger] d2.contains_key(l) == d.contains_key(l) && (d.contains_key(l)
            ==> d2[l] == d[l]),
    ensures
        scan_cluster(d2, first, spc, s, name) == scan_cluster(d, first, spc, s, name),
    decreases spc - s,
{
    if s < spc && first + s <= u32::MAX {
        assert(d2.contains_key((first + s) as u32) == d.contains_key((first + s) as u32));
        lemma_scan_cluster_frame(d, d2, first, spc, s + 1, name);
    }
}

/// Along a root chain whose clusters are all full, on a disk `d4` that
/// differs from `d` only in the FAT entries of the chain's last cluster
/// `tail` (now linked to `nc`) and of `nc`, and in the sectors of `nc`'s
/// cluster, a lookup for `name` ends at the entry found in `nc`'s cluster.
#[verifier::rlimit(50)]
proof fn lemma_grown_entry_found(
    d: Map<u32, Seq<u8>>,
    d4: Map<u32, Seq<u8>>,
    bpb: Bpb,
    c: u32,
    f: nat,
    k: nat,
    name: Seq<u8>,
    tail: u32,
    nc: u32,
    first: u32,
)
    requires
        layout_ok(bpb),
        bpb.usable(),
        free_slot_walk(d, bpb, c, f) == SlotWalk::Full(tail),
        next_cluster_spec(d, bpb, tail) is None,
        lookup_chain(d, bpb, c, f, name) is None,
        chain_at(d, bpb, c, k) == Some(tail),
        chain_valid(d, bpb, c, k),
        k + 2 <= f,
        raw_fat_entry(d, bpb, nc) == Some(0u32),
        2 <= nc <= bpb.max_cluster,
        cluster_sector(bpb, nc) == Some(first),
        forall|z: u32| z <= bpb.max_cluster && z != tail && z != nc ==> #[trigger] raw_fat_entry(d4, bpb, z) == raw_fat_entry(d, bpb, z),
        next_cluster_spec(d4, bpb, tail) == Some(nc),
        same_outside(d, d4, first as int, first + bpb.sectors_per_cluster, bpb.first_data_sector as int),
        scan_cluster(d4, first, bpb.sectors_per_cluster, 0, name) == ClusterScan::Found(first, 0usize),
    ensures
        lookup_chain(d4, bpb, c, f, name) == Some((first, 0usize)),
    decreases k,
{
    let spc = bpb.sectors_per_cluster;
    let fc = cluster_sector(bpb, c).unwrap();
    assert(chain_at(d, bpb, c, 0) == Some(c));
    assert(c <= bpb.max_cluster);
    assert(free_in_cluster(d, fc, spc, 0) is Next);
    lemma_free_in_cluster_next(d, fc, spc, 0, name);
    assert(scan_cluster(d, fc, spc, 0, name) is Next);
    if c == nc {
        reveal(raw_fat_entry);
        assert(next_cluster_spec(d, bpb, c) is None);
        assert(tail == c);
        assert(fc == first);
    } else {
        assert(fc + spc <= first || first + spc <= fc) by (nonlinear_arith)
            requires
                c != nc,
                c >= 2,
                nc >= 2,
                fc == bpb.first_data_sector + (c - 2) * spc,
                first == bpb.first_data_sector + (nc - 2) * spc,
        ;
        assert(fc >= bpb.first_data_sector) by (nonlinear_arith)
            requires fc == bpb.first_data_sector + (c - 2) * spc, c >= 2;
        assert forall|l: u32| fc + 0 <= l < fc + spc implies #[trigger] d4.contains_key(l) == d.contains_key(l) && (
        d.contains_key(l) ==> d4[l] == d[l]) by {
            assert(l >= bpb.first_data_sector && !(first <= l < first + spc));
        }
        lemma_scan_cluster_frame(d, d4, fc, spc, 0, name);
        match next_cluster_spec(d, bpb, c) {
            None => {
                assert(tail == c);
                assert(lookup_chain(d4, bpb, nc, (f - 1) as nat, name) == Some((first, 0usize)));
            },
            Some(c1) => {
                assert(c != tail);
                assert(raw_fat_entry(d4, bpb, c) == raw_fat_entry(d, bpb, c));
                assert(next_cluster_spec(d4, bpb, c) == Some(c1));
                assert(k > 0);
                lemma_chain_at_step(d, bpb, c, k);
                assert forall|j: nat| j <= (k - 1) as nat implies (#[trigger] chain_at(d, bpb, c1, j) matches Some(x) ==> x
                    <= bpb.max_cluster) by {
                    lemma_chain_at_step(d, bpb, c, j + 1);
                    assert(chain_at(d, bpb, c, j + 1) matches Some(x) ==> x <= bpb.max_cluster);
                }
                lemma_grown_entry_found(d, d4, bpb, c1, (f - 1) as nat, (k - 1) as nat, name, tail, nc, first);
            },
        }
    }
}

/// The entry a grown root directory's new cluster gets: looking `name` up
/// in that cluster finds it in the cluster's first sector, at offset 0.
proof fn lemma_fresh_cluster_entry(d: Map<u32, Seq<u8>>, first: u32, spc: u32, name: Seq<u8>)
    requires
        spc >= 1,
        first + spc <= u32::MAX + 1,
        name.len() == 11,
        name[0] != 0 && name[0] != 0xE5,
        d.contains_key(first),
        d[first] == with_new_dirent(zero_sector(), 0, name),
    ensures
        scan_cluster(d, first, spc, 0, name) == ClusterScan::Found(first, 0usize),
{
    let t = d[first];
    assert(t[0] == name[0]);
    assert(t[11] == 0x20u8);
    assert((0x20u8 & 0x08u8) == 0) by (bit_vector);
    assert(t.subrange(0, 11) =~= name);
    assert(scan_entries(t, name, 0) == DirScan::Found(0usize));
    assert((first + 0) as u32 == first);
}

/// Growing the root directory (`grow_root_spec`) and writing a fresh entry
/// for `name` into the new slot leaves a disk on which the root chain, up
/// to its old last cluster, reads as before, and then leads on into the new
/// cluster, whose first entry is `name`'s.
#[verifier::rlimit(100)]
proof fn lemma_grown_root_found(d: Map<u32, Seq<u8>>, bpb: Bpb, name: Seq<u8>, tail: u32)
    requires
        sectors_512(d),
        layout_ok(bpb),
        bpb.usable(),
        name.len() == 11,
        name[0] != 0 && name[0] != 0xE5,
        chain_valid(d, bpb, bpb.root_cluster, bpb.max_cluster as nat),
        lookup_chain(d, bpb, bpb.root_cluster, bpb.max_cluster as nat, name) is None,
        free_slot_walk(d, bpb, bpb.root_cluster, bpb.max_cluster as nat) == SlotWalk::Full(tail),
        grow_root_spec(d, bpb, tail).0 is Some,
        new_dirent_spec(grow_root_spec(d, bpb, tail).1, grow_root_spec(d, bpb, tail).0.unwrap(), name).0,
    ensures
        ({
            let loc = grow_root_spec(d, bpb, tail).0.unwrap();
            let d4 = new_dirent_spec(grow_root_spec(d, bpb, tail).1, loc, name).1;
            lookup_chain(d4, bpb, bpb.root_cluster, bpb.max_cluster as nat, name) == Some((loc.sector, loc.offset))
                && d4[loc.sector] == with_new_dirent(zero_sector(), 0, name)
        }),
{
    let root = bpb.root_cluster;
    let fuel = bpb.max_cluster as nat;
    let spc = bpb.sectors_per_cluster;
    let k0 = lemma_walk_full_steps(d, bpb, root, fuel, tail);
    assert forall|j: nat| j <= k0 implies (#[trigger] chain_at(d, bpb, root, j) matches Some(x) ==> x <= bpb.max_cluster) by {
        assert(chain_valid(d, bpb, root, fuel));
    }
    assert(tail <= bpb.max_cluster);
    assert(chain_at(d, bpb, root, k0 + 1) is None);
    lemma_chain_short(d, bpb, root, k0);

    let (a, d1) = alloc_spec(d, bpb);
    let nc = a.unwrap();
    lemma_alloc_facts(d, bpb);
    assert(alloc_spec(d, bpb).1 == write_fat_spec(d, bpb, nc, FAT32_EOC_MIN).1);
    lemma_write_fat_keeps_data(d, bpb, nc, FAT32_EOC_MIN);
    let (ok, d2) = write_fat_spec(d1, bpb, tail, nc);
    assert(ok);
    lemma_link_facts(d1, bpb, tail, nc);
    lemma_write_fat_keeps_data(d1, bpb, tail, nc);
    let first = cluster_sector(bpb, nc).unwrap();
    let (zok, d3) = zero_sectors(d2, first, spc, 0);
    assert(zok);
    lemma_zero_sectors_frame(d2, first, spc, 0);
    assert(first >= bpb.first_data_sector) by (nonlinear_arith)
        requires first == bpb.first_data_sector + (nc - 2) * spc, nc >= 2;
    assert((first + 0) as u32 == first);
    assert(d2.contains_key(first) && d3[first] == zero_sector());
    let loc = DirLoc { sector: first, offset: 0 };
    assert(grow_root_spec(d, bpb, tail).0 == Some(loc));
    assert(grow_root_spec(d, bpb, tail).1 == d3);
    let d4 = d3.insert(first, with_new_dirent(d3[first], 0, name));
    assert(new_dirent_spec(d3, loc, name).1 == d4);

    assert(same_below_data(d2, d4, bpb)) by {
        assert forall|l: u32| l < bpb.first_data_sector implies #[trigger] d4.contains_key(l) == d2.contains_key(l) && (
        d2.contains_key(l) ==> d4[l] == d2[l]) by {
            assert(!(first <= l < first + spc));
            assert(d3.contains_key(l) == d2.contains_key(l));
        }
    }
    assert forall|z: u32| z <= bpb.max_cluster && z != tail && z != nc implies #[trigger] raw_fat_entry(d4, bpb, z)
        == raw_fat_entry(d, bpb, z) by {
        lemma_raw_fat_below_data(d2, d4, bpb, z);
    }
    lemma_raw_fat_below_data(d2, d4, bpb, tail);
    assert(next_cluster_spec(d4, bpb, tail) == Some(nc));
    assert(same_outside(d, d4, first as int, first + spc, bpb.first_data_sector as int)) by {
        assert forall|l: u32| l >= bpb.first_data_sector && !(first <= l < first + spc) implies #[trigger] d4.contains_key(l)
            == d.contains_key(l) && (d.contains_key(l) ==> d4[l] == d[l]) by {
            assert(d1.contains_key(l) == d.contains_key(l));
            assert(d2.contains_key(l) == d1.contains_key(l));
            assert(d3.contains_key(l) == d2.contains_key(l));
        }
    }
    lemma_fresh_cluster_entry(d4, first, spc, name);
    lemma_grown_entry_found(d, d4, bpb, root, fuel, k0, name, tail, nc, first);
}

/// A file just created can be found: when `open_or_create` creates `name`
/// (in a free entry of the root directory, or in the first entry of a
/// cluster the root directory grows by when every entry is taken), looking
/// `name` up on the disk that results finds the new empty file (no
/// cluster, size zero) at that entry. A free entry the root directory
/// already has is always used. Stated for a sanely laid-out volume as
/// `parse_bpb` hands it out, whose root chain holds valid cluster numbers,
/// and for names that do not begin with a byte that marks a free entry
/// (0x00 or 0xE5).
pub proof fn lemma_create_then_find(d: Map<u32, Seq<u8>>, bpb: Bpb, name: Seq<u8>)
    requires
        sectors_512(d),
        layout_ok(bpb),
        bpb.usable(),
        name.len() == 11,
        name[0] != 0 && name[0] != 0xE5,
        chain_valid(d, bpb, bpb.root_cluster, bpb.max_cluster as nat),
        find_in_root_spec(d, bpb, name) is None,
    ensures
        ({
            let (r, d2) = open_or_create_spec(d, bpb, name, true);
            &&& r matches Some((c, size, loc)) ==> c == 0 && size == 0 && find_in_root_spec(d2, bpb, name) == Some(
                (0u32, 0u32, loc),
            )
            &&& free_slot_walk(d, bpb, bpb.root_cluster, bpb.max_cluster as nat) is Found ==> r is Some
        }),
{
    match free_slot_walk(d, bpb, bpb.root_cluster, bpb.max_cluster as nat) {
        SlotWalk::Found(sector, off) => {
            lemma_free_slot_walk_found(d, bpb, bpb.root_cluster, bpb.max_cluster as nat);
            lemma_free_entry_range(d[sector], 0);
            lemma_created_entry_found(d, bpb, bpb.root_cluster, bpb.max_cluster as nat, name, sector, off);
            let t = with_new_dirent(d[sector], off as int, name);
            assert(dirent_cluster(t, off as int) == 0);
            assert(dirent_size(t, off as int) == 0);
        },
        SlotWalk::Failed => {},
        SlotWalk::Full(tail) => {
            let (slot, d1) = grow_root_spec(d, bpb, tail);
            if slot is Some && new_dirent_spec(d1, slot.unwrap(), name).0 {
                lemma_grown_root_found(d, bpb, name, tail);
                let t = with_new_dirent(zero_sector(), 0, name);
                assert(dirent_cluster(t, 0) == 0);
                assert(dirent_size(t, 0) == 0);
            }
        },
    }
}

} // verus!

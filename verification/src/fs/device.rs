//! The sector-addressed storage a FAT32 volume lives on.
use vstd::prelude::*;

verus! {

pub const SECTOR_SIZE: usize = 512;

/// A device that reads and writes whole 512-byte sectors by LBA. A device
/// that models itself gives its contents as the map `sectors()` from LBA
/// to sector bytes and declares itself `reliable()`: it then reads back
/// exactly what `sectors()` holds, writes exactly the sector asked for,
/// and fails only on a sector it does not hold. A device that does not
/// model itself (the default) promises nothing.
pub trait BlockDevice {
    open spec fn sectors(&self) -> Map<u32, Seq<u8>> {
        Map::empty()
    }

    open spec fn reliable(&self) -> bool {
        false
    }

    /// Reads sector `lba` into `buf`.
    fn read_sector(&mut self, lba: u32, buf: &mut [u8; 512]) -> (ok: bool)
        ensures
            old(self).reliable() ==> {
                &&& final(self).reliable()
                &&& final(self).sectors() == old(self).sectors()
                &&& ok == old(self).sectors().contains_key(lba)
                &&& ok ==> final(buf)@ == old(self).sectors()[lba]
            },
    ;

    /// Writes `buf` to sector `lba`.
    fn write_sector(&mut self, lba: u32, buf: &[u8; 512]) -> (ok: bool)
        ensures
            old(self).reliable() ==> {
                &&& final(self).reliable()
                &&& ok == old(self).sectors().contains_key(lba)
                &&& final(self).sectors() == (if ok { old(self).sectors().insert(lba, buf@) } else { old(self).sectors() })
            },
    ;
}

/// A disk held in memory: `num_sectors` sectors of 512 bytes, back to back.
pub struct MemDisk {
    data: Vec<u8>,
}

impl MemDisk {
    /// The disk's bytes, sector after sector.
    pub closed spec fn contents(&self) -> Seq<u8> {
        self.data@
    }

    /// Its sectors are its bytes cut into 512-byte pieces: sector `l`
    /// exists when the bytes reach to its end, and holds bytes
    /// `512 l .. 512 l + 512`.
    pub proof fn lemma_sectors_are_contents(&self)
        ensures
            forall|l: u32| #[trigger] self.sectors().contains_key(l) <==> (l as int + 1) * 512 <= self.contents().len(),
            forall|l: u32| #[trigger] self.sectors().contains_key(l) ==> self.sectors()[l] == self.contents().subrange(
                l as int * 512,
                l as int * 512 + 512,
            ),
    {
    }

    /// A disk of `num_sectors` zero-filled sectors.
    pub fn new(num_sectors: u32) -> (r: Self)
        requires
            num_sectors as nat * 512 <= usize::MAX,
        ensures
            r.reliable(),
            r.sectors().dom() == Set::new(|l: u32| l < num_sectors),
            forall|l: u32| l < num_sectors ==> r.sectors()[l] == Seq::new(512, |i: int| 0u8),
    {
        let n = (num_sectors as usize) * 512;
        let mut data: Vec<u8> = Vec::new();
        let mut i: usize = 0;
        while i < n
            invariant
                i <= n,
                data@.len() == i,
                forall|j: int| 0 <= j < i ==> data@[j] == 0,
            decreases n - i,
        {
            data.push(0);
            i = i + 1;
        }
        let r = MemDisk { data };
        assert(r.sectors().dom() =~= Set::new(|l: u32| l < num_sectors));
        assert forall|l: u32| l < num_sectors implies r.sectors()[l] == Seq::new(512, |i: int| 0u8) by {
            assert(r.sectors()[l] =~= Seq::new(512, |i: int| 0u8));
        }
        r
    }

    /// Number of sectors.
    pub fn num_sectors(&self) -> (n: usize)
        ensures
            n == self.contents().len() / 512,
    {
        self.data.len() / 512
    }

    /// The whole disk, sector after sector.
    pub fn bytes(&self) -> (r: &[u8])
        ensures
            r@ == self.contents(),
    {
        self.data.as_slice()
    }
}

impl BlockDevice for MemDisk {
    closed spec fn sectors(&self) -> Map<u32, Seq<u8>> {
        Map::new(
            |l: u32| (l as int + 1) * 512 <= self.data@.len(),
            |l: u32| self.data@.subrange(l as int * 512, l as int * 512 + 512),
        )
    }

    /// An in-memory disk always does what it models.
    open spec fn reliable(&self) -> bool {
        true
    }

    fn read_sector(&mut self, lba: u32, buf: &mut [u8; 512]) -> (ok: bool) {
        let n = self.data.len() / 512;
        if (lba as usize) >= n {
            return false;
        }
        let start = (lba as usize) * 512;
        let mut i: usize = 0;
        while i < 512
            invariant
                i <= 512,
                start == lba as int * 512,
                start + 512 <= self.data@.len(),
                forall|j: int| 0 <= j < i ==> buf@[j] == self.data@[start + j],
            decreases 512 - i,
        {
            buf[i] = self.data[start + i];
            i = i + 1;
        }
        assert(buf@ =~= self.data@.subrange(start as int, start + 512));
        true
    }

    fn write_sector(&mut self, lba: u32, buf: &[u8; 512]) -> (ok: bool) {
        let n = self.data.len() / 512;
        if (lba as usize) >= n {
            return false;
        }
        let start = (lba as usize) * 512;
        let ghost old_data = self.data@;
        let mut i: usize = 0;
        while i < 512
            invariant
                i <= 512,
                start == lba as int * 512,
                start + 512 <= self.data@.len(),
                self.data@.len() == old_data.len(),
                forall|j: int| 0 <= j < self.data@.len() ==> #[trigger] self.data@[j] == (if start <= j < start + i {
                    buf@[j - start]
                } else {
                    old_data[j]
                }),
            decreases 512 - i,
        {
            self.data.set(start + i, buf[i]);
            i = i + 1;
        }
        proof {
            let old_map = Map::new(
                |l: u32| (l as int + 1) * 512 <= old_data.len(),
                |l: u32| old_data.subrange(l as int * 512, l as int * 512 + 512),
            );
            assert(self.sectors().dom() =~= old_map.insert(lba, buf@).dom());
            assert forall|l: u32| self.sectors().dom().contains(l) implies self.sectors()[l] == old_map.insert(lba, buf@)[l] by {
                if l == lba {
                    assert(self.sectors()[l] =~= buf@);
                } else {
                    assert forall|j: int| 0 <= j < 512 implies #[trigger] self.data@[l as int * 512 + j] == old_data[l as int * 512 + j] by {
                        assert(l as int * 512 + j < start || l as int * 512 + j >= start + 512) by (nonlinear_arith)
                            requires l != lba, 0 <= j < 512, start == lba as int * 512;
                    }
                    assert(self.sectors()[l] =~= old_map[l]);
                }
            }
            assert(self.sectors() =~= old_map.insert(lba, buf@));
        }
        true
    }
}

} // verus!

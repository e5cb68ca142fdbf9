use vstd::prelude::*;

use crate::SECTOR_SIZE;

verus! {

/// The geometry of a disk as the drive reports it.
#[derive(Copy, Clone, Debug)]
pub struct DiskGeometryEx {
    pub cylinders: i64,
    pub media_type: u32,
    pub tracks_per_cylinder: u32,
    pub sectors_per_track: u32,
    pub bytes_per_sector: u32,
    pub disk_size: i64,
    pub data: [u8; 1],
}

impl DiskGeometryEx {
    /// The cylinder count read as an unsigned 64-bit value, as the sector count takes it.
    pub open spec fn spec_cylinders(&self) -> int {
        #[verifier::truncate]
        (self.cylinders as u64) as int
    }

    /// Cylinders times tracks per cylinder times sectors per track.
    pub open spec fn spec_sectors(&self) -> int {
        self.spec_cylinders() * self.tracks_per_cylinder * self.sectors_per_track
    }

    /// The sector count is computed without overflow, left to right.
    pub open spec fn sectors_fit(&self) -> bool {
        &&& self.spec_cylinders() * self.tracks_per_cylinder <= u64::MAX
        &&& self.spec_sectors() <= u64::MAX
    }

    /// Returns the size of the disk in bytes.
    pub fn size(&self) -> (r: u64)
        requires
            self.sectors_fit(),
            self.spec_sectors() * self.bytes_per_sector <= u64::MAX,
        ensures
            r == self.spec_sectors() * self.bytes_per_sector,
    {
        self.sectors() * self.bytes_per_sector as u64
    }

    /// Returns the number of sectors of the disk.
    pub fn sectors(&self) -> (r: u64)
        requires
            self.sectors_fit(),
        ensures
            r == self.spec_sectors(),
    {
        #[verifier::truncate]
        let c = self.cylinders as u64;
        c * self.tracks_per_cylinder as u64 * self.sectors_per_track as u64
    }
}

/// The length a write of `len` bytes is rounded up to: the next multiple of the sector size,
/// and zero for an empty write.
pub open spec fn spec_sector_aligned_len(len: int) -> int {
    if len <= 0 {
        0
    } else {
        ((len - 1) / (SECTOR_SIZE as int) + 1) * (SECTOR_SIZE as int)
    }
}

/// The number of bytes a disk write of `len` bytes transfers: writes go by whole sectors.
pub fn sector_aligned_len(len: usize) -> (r: usize)
    requires
        spec_sector_aligned_len(len as int) <= usize::MAX,
    ensures
        r == spec_sector_aligned_len(len as int),
        r % SECTOR_SIZE == 0,
        len <= r,
        r < len + SECTOR_SIZE,
{
    if len == 0 {
        return 0;
    }
    let mut l = len - 1;
    proof {
        assert(l == (l / 512) * 512 + l % 512) by (nonlinear_arith);
        assert(((l / 512) + 1) * 512 == (l / 512) * 512 + 512) by (nonlinear_arith);
        assert((((l / 512) + 1) * 512) % 512 == 0) by (nonlinear_arith);
    }
    l = l + (SECTOR_SIZE - (l % SECTOR_SIZE));
    l
}

} // verus!

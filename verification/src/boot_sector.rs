//! The volume boot record and the geometry derived from it.

use vstd::prelude::*;
use crate::bytes::{le16, le32, read_le16, read_le32};
use crate::error::Fat32Error;

verus! {

/// The boot record of a FAT32 volume, field by field as laid out on disk.
///
/// Multi-byte fields are stored little-endian; the record occupies the first
/// [`BootSector::SIZE`] bytes of sector 0.
#[derive(Clone, Copy, Debug)]
pub struct BootSector {
    pub jmp_boot: [u8; 3],
    pub oem_name: [u8; 8],
    pub bytes_per_sector: u16,
    pub sectors_per_cluster: u8,
    pub reserved_sector_count: u16,
    pub num_fats: u8,
    pub root_entry_count: u16,
    pub total_sectors_16: u16,
    pub media: u8,
    pub fat_size_16: u16,
    pub sectors_per_track: u16,
    pub num_heads: u16,
    pub hidden_sectors: u32,
    pub total_sectors_32: u32,
    pub fat_size_32: u32,
    pub ext_flags: u16,
    pub fs_version: u16,
    pub root_cluster: u32,
    pub fs_info: u16,
    pub backup_boot_sector: u16,
    pub reserved: [u8; 12],
    pub drive_number: u8,
    pub reserved1: u8,
    pub boot_signature: u8,
    pub volume_id: u32,
    pub volume_label: [u8; 11],
    pub fs_type: [u8; 8],
}

impl BootSector {
    /// The number of bytes the record occupies on disk.
    pub const SIZE: usize = 90;

    /// The record stored in the first 90 bytes of `bytes`.
    pub open spec fn decode(bytes: Seq<u8>) -> BootSector {
        BootSector {
            jmp_boot: [bytes[0], bytes[1], bytes[2]],
            oem_name: [
                bytes[3],
                bytes[4],
                bytes[5],
                bytes[6],
                bytes[7],
                bytes[8],
                bytes[9],
                bytes[10],
            ],
            bytes_per_sector: le16(bytes, 11),
            sectors_per_cluster: bytes[13],
            reserved_sector_count: le16(bytes, 14),
            num_fats: bytes[16],
            root_entry_count: le16(bytes, 17),
            total_sectors_16: le16(bytes, 19),
            media: bytes[21],
            fat_size_16: le16(bytes, 22),
            sectors_per_track: le16(bytes, 24),
            num_heads: le16(bytes, 26),
            hidden_sectors: le32(bytes, 28),
            total_sectors_32: le32(bytes, 32),
            fat_size_32: le32(bytes, 36),
            ext_flags: le16(bytes, 40),
            fs_version: le16(bytes, 42),
            root_cluster: le32(bytes, 44),
            fs_info: le16(bytes, 48),
            backup_boot_sector: le16(bytes, 50),
            reserved: [
                bytes[52],
                bytes[53],
                bytes[54],
                bytes[55],
                bytes[56],
                bytes[57],
                bytes[58],
                bytes[59],
                bytes[60],
                bytes[61],
                bytes[62],
                bytes[63],
            ],
            drive_number: bytes[64],
            reserved1: bytes[65],
            boot_signature: bytes[66],
            volume_id: le32(bytes, 67),
            volume_label: [
                bytes[71],
                bytes[72],
                bytes[73],
                bytes[74],
                bytes[75],
                bytes[76],
                bytes[77],
                bytes[78],
                bytes[79],
                bytes[80],
                bytes[81],
            ],
            fs_type: [
                bytes[82],
                bytes[83],
                bytes[84],
                bytes[85],
                bytes[86],
                bytes[87],
                bytes[88],
                bytes[89],
            ],
        }
    }

    /// Decodes the record from the start of `data`.
    pub fn from_bytes(data: &[u8]) -> (record: BootSector)
        requires
            data@.len() >= BootSector::SIZE,
        ensures
            record == BootSector::decode(data@),
    {
        let record = BootSector {
            jmp_boot: [data[0], data[1], data[2]],
            oem_name: [
                data[3], data[4], data[5], data[6], data[7], data[8], data[9], data[10],
            ],
            bytes_per_sector: read_le16(data, 11),
            sectors_per_cluster: data[13],
            reserved_sector_count: read_le16(data, 14),
            num_fats: data[16],
            root_entry_count: read_le16(data, 17),
            total_sectors_16: read_le16(data, 19),
            media: data[21],
            fat_size_16: read_le16(data, 22),
            sectors_per_track: read_le16(data, 24),
            num_heads: read_le16(data, 26),
            hidden_sectors: read_le32(data, 28),
            total_sectors_32: read_le32(data, 32),
            fat_size_32: read_le32(data, 36),
            ext_flags: read_le16(data, 40),
            fs_version: read_le16(data, 42),
            root_cluster: read_le32(data, 44),
            fs_info: read_le16(data, 48),
            backup_boot_sector: read_le16(data, 50),
            reserved: [
                data[52], data[53], data[54], data[55], data[56], data[57], data[58], data[59],
                data[60], data[61], data[62], data[63],
            ],
            drive_number: data[64],
            reserved1: data[65],
            boot_signature: data[66],
            volume_id: read_le32(data, 67),
            volume_label: [
                data[71], data[72], data[73], data[74], data[75], data[76], data[77], data[78],
                data[79], data[80], data[81],
            ],
            fs_type: [
                data[82], data[83], data[84], data[85], data[86], data[87], data[88], data[89],
            ],
        };
        let ghost model = BootSector::decode(data@);
        assert(record.jmp_boot@ =~= model.jmp_boot@);
        assert(record.oem_name@ =~= model.oem_name@);
        assert(record.reserved@ =~= model.reserved@);
        assert(record.volume_label@ =~= model.volume_label@);
        assert(record.fs_type@ =~= model.fs_type@);
        record
    }

    /// Whether the record describes a FAT32 volume this driver can read:
    /// the extended boot signature is present, the sector size is one of
    /// the four the format allows, and there is at least one FAT.
    pub open spec fn is_valid(&self) -> bool {
        &&& (self.boot_signature == 0x28 || self.boot_signature == 0x29)
        &&& (self.bytes_per_sector == 512 || self.bytes_per_sector == 1024
            || self.bytes_per_sector == 2048 || self.bytes_per_sector == 4096)
        &&& self.num_fats >= 1
    }

    /// Accepts the record if it is valid, and rejects it otherwise.
    pub fn validate(&self) -> (result: Result<(), Fat32Error>)
        ensures
            self.is_valid() ==> result == Ok::<(), Fat32Error>(()),
            !self.is_valid() ==> result == Err::<(), Fat32Error>(Fat32Error::InvalidBootSector),
    {
        if self.boot_signature != 0x28 && self.boot_signature != 0x29 {
            return Err(Fat32Error::InvalidBootSector);
        }
        if self.bytes_per_sector != 512 && self.bytes_per_sector != 1024
            && self.bytes_per_sector != 2048 && self.bytes_per_sector != 4096 {
            return Err(Fat32Error::InvalidBootSector);
        }
        if self.num_fats == 0 {
            return Err(Fat32Error::InvalidBootSector);
        }
        Ok(())
    }

    /// The size of a cluster in bytes.
    pub open spec fn spec_cluster_size(&self) -> int {
        self.bytes_per_sector as int * self.sectors_per_cluster as int
    }

    /// The number of sectors one FAT occupies: the 16-bit field where it is
    /// set, the 32-bit field otherwise.
    pub open spec fn spec_fat_size(&self) -> u32 {
        if self.fat_size_16 != 0 {
            self.fat_size_16 as u32
        } else {
            self.fat_size_32
        }
    }

    /// The number of sectors on the volume: the 16-bit field where it is
    /// set, the 32-bit field otherwise.
    pub open spec fn spec_total_sectors(&self) -> u32 {
        if self.total_sectors_16 != 0 {
            self.total_sectors_16 as u32
        } else {
            self.total_sectors_32
        }
    }

    /// The sector at which the data region starts: the reserved sectors
    /// followed by every copy of the FAT.
    pub open spec fn spec_first_data_sector(&self) -> int {
        self.reserved_sector_count as int + self.num_fats as int * self.spec_fat_size() as int
    }

    /// The size of a cluster in bytes.
    pub fn cluster_size(&self) -> (size: u32)
        ensures
            size == self.spec_cluster_size(),
    {
        assert(self.bytes_per_sector as int * self.sectors_per_cluster as int <= 0xffff * 0xff)
            by (nonlinear_arith)
            requires
                self.bytes_per_sector <= 0xffff,
                self.sectors_per_cluster <= 0xff,
        ;
        self.bytes_per_sector as u32 * self.sectors_per_cluster as u32
    }

    /// The number of sectors one FAT occupies.
    pub fn fat_size(&self) -> (sectors: u32)
        ensures
            sectors == self.spec_fat_size(),
    {
        if self.fat_size_16 != 0 {
            self.fat_size_16 as u32
        } else {
            self.fat_size_32
        }
    }

    /// The number of sectors on the volume.
    pub fn total_sectors(&self) -> (sectors: u32)
        ensures
            sectors == self.spec_total_sectors(),
    {
        if self.total_sectors_16 != 0 {
            self.total_sectors_16 as u32
        } else {
            self.total_sectors_32
        }
    }

    /// The first sector of the data region.
    pub fn first_data_sector(&self) -> (sector: u32)
        requires
            self.spec_first_data_sector() <= u32::MAX,
        ensures
            sector == self.spec_first_data_sector(),
    {
        let fats: u32 = self.num_fats as u32 * self.fat_size();
        self.reserved_sector_count as u32 + fats
    }

    /// The first sector of the first FAT.
    pub fn first_fat_sector(&self) -> (sector: u32)
        ensures
            sector == self.reserved_sector_count,
    {
        self.reserved_sector_count as u32
    }
}

} // verus!

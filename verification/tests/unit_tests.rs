use fat32::{BlockDevice, BootSector, Fat32Error, Fat32FileSystem, FatTable};

struct MockDevice {
    data: Vec<u8>,
}

impl BlockDevice for MockDevice {
    fn read_sector(&mut self, sector: u32, buffer: &mut [u8]) -> Result<(), Fat32Error> {
        let offset = sector as usize * 512;
        buffer.copy_from_slice(&self.data[offset..offset + buffer.len()]);
        Ok(())
    }

    fn write_sector(&mut self, _: u32, _: &[u8]) -> Result<(), Fat32Error> {
        Ok(())
    }

    fn sector_size(&self) -> usize {
        512
    }
}

#[test]
fn test_boot_sector_validation() {
    let mut data = [0u8; 512];
    data[66] = 0x29;
    data[11..13].copy_from_slice(&512u16.to_le_bytes());
    data[13] = 8;
    data[16] = 2;

    let bs = BootSector::from_bytes(&data);
    assert!(bs.validate().is_ok());
}

#[test]
fn test_invalid_cluster() {
    let mut device = MockDevice { data: vec![0; 1024 * 512] };
    device.data[66] = 0x29;
    device.data[11..13].copy_from_slice(&512u16.to_le_bytes());
    device.data[13] = 1;
    device.data[16] = 2;

    let bs = BootSector::from_bytes(&device.data[0..512]);
    let mut fat = FatTable::new(&mut device, &bs);

    assert!(fat.next_cluster(0).is_err());
    assert!(fat.next_cluster(1).is_err());
}

#[test]
fn test_filesystem_creation() {
    let mut device = MockDevice { data: vec![0; 1024 * 512] };
    device.data[66] = 0x29;
    device.data[11..13].copy_from_slice(&512u16.to_le_bytes());
    device.data[13] = 1;
    device.data[14..16].copy_from_slice(&32u16.to_le_bytes());
    device.data[16] = 2;
    device.data[36..40].copy_from_slice(&8u32.to_le_bytes());
    device.data[44..48].copy_from_slice(&2u32.to_le_bytes());

    let fs = Fat32FileSystem::new(device);
    assert!(fs.is_ok());
}

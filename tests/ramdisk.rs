use svsm_io::block::api::BlockDev;
use svsm_io::block::ramdisk::RamDisk;

#[test]
pub fn size() {
    let dev = RamDisk::new(123);
    assert_eq!(dev.size(), 123);

    let dev2 = RamDisk::new(321);
    assert_eq!(dev2.size(), 321);
}

#[test]
pub fn write() {
    let buf = [1, 2, 3];
    let mut a = RamDisk::new(0x1000);
    assert_eq!(a.write(&buf, 0).unwrap(), 3);
}

#[test]
pub fn write_from_slice() {
    let buf = [1, 2, 3, 4];
    let mut a = RamDisk::new(0x1000);
    assert_eq!(a.write(&buf[2..3], 0).unwrap(), 1);
}

#[test]
pub fn write_out_of_bounds() {
    let buf = [1, 2, 3, 4];
    let mut a = RamDisk::new(0x1000);

    assert_eq!(a.write(&buf, a.size() - 1).unwrap(), 1);
    assert_eq!(a.write(&buf, a.size() + 1).unwrap(), 0);
}

#[test]
pub fn read_out_of_bounds() {
    let a = RamDisk::from_content(&vec![0u8, 1, 2, 3, 4, 5]);
    let mut buf = [0u8; 4];

    // short read
    assert_eq!(a.read(&mut buf, a.size() - 2).unwrap(), 2);
    assert_eq!(buf[0..2], [4u8, 5]);

    // no data returned
    assert_eq!(a.read(&mut buf, a.size() + 2).unwrap(), 0);
}

#[test]
pub fn read() {
    let a = RamDisk::from_content(&vec![0u8, 1, 2, 3, 4, 5]);
    {
        let mut buf = [0u8, 0, 0];
        assert_eq!(a.read(&mut buf, 0).unwrap(), buf.len());
        assert_eq!(buf, [0u8, 1, 2]);
    }
    {
        let mut buf = [0u8, 0, 0];
        assert_eq!(a.read(&mut buf, 3).unwrap(), buf.len());
        assert_eq!(buf, [3u8, 4, 5]);
    }
}

#[test]
pub fn read_into_slice() {
    let a = RamDisk::from_content(&vec![0u8, 1, 2, 3, 4, 5]);
    let mut buf = [0u8; 10];
    let tgt = &mut buf[3..6];
    assert_eq!(a.read(tgt, 1).unwrap(), tgt.len());
    assert_eq!(*tgt, [1u8, 2, 3]);
    assert_eq!(buf, [0u8, 0, 0, 1, 2, 3, 0, 0, 0, 0]);
}

#[test]
pub fn readback() {
    let mut a = RamDisk::from_content(&vec![0u8, 1, 2, 3, 4, 5, 6, 7, 8, 9]);

    let write_data = [20u8, 21u8, 22u8];

    assert_eq!(a.write(&write_data, 2).unwrap(), write_data.len());

    const EXPECT: [u8; 5] = [1u8, 20, 21, 22, 5];
    let mut read_data = [0u8; EXPECT.len()];
    assert_eq!(a.read(&mut read_data, 1).unwrap(), EXPECT.len());
    assert_eq!(read_data, EXPECT);
}

#[test]
fn ram_disk_4k_write_then_read() {
    let mut content = vec![0u8; 4096];
    for (i, b) in content.iter_mut().take(6).enumerate() {
        *b = i as u8;
    }
    let mut a = RamDisk::from_content(&content);
    assert_eq!(a.write(&[20, 21, 22], 2).unwrap(), 3);
    let mut out = [0u8; 5];
    assert_eq!(a.read(&mut out, 1).unwrap(), 5);
    assert_eq!(out, [1, 20, 21, 22, 5]);
}

#[test]
fn ram_disk_past_end_moves_nothing() {
    let mut a = RamDisk::from_content(&vec![7u8; 16]);
    let mut buf = [9u8; 4];
    assert_eq!(a.read(&mut buf, 16).unwrap(), 0);
    assert_eq!(a.read(&mut buf, 100).unwrap(), 0);
    assert_eq!(buf, [9u8; 4]);
    assert_eq!(a.write(&[1, 2], 16).unwrap(), 0);
    assert_eq!(a.write(&[1, 2], usize::MAX).unwrap(), 0);
    let mut all = [0u8; 16];
    assert_eq!(a.read(&mut all, 0).unwrap(), 16);
    assert_eq!(all, [7u8; 16]);
}

#[test]
fn ram_disk_short_transfer_is_truncated() {
    let mut a = RamDisk::new(10);
    assert_eq!(a.write(&[1, 2, 3, 4, 5], 7).unwrap(), 3);
    let mut buf = [0u8; 8];
    assert_eq!(a.read(&mut buf, 6).unwrap(), 4);
    assert_eq!(buf, [0, 1, 2, 3, 0, 0, 0, 0]);
}

#[test]
fn ram_disk_empty_device() {
    let mut a = RamDisk::new(0);
    assert_eq!(a.size(), 0);
    let mut buf = [0u8; 3];
    assert_eq!(a.read(&mut buf, 0).unwrap(), 0);
    assert_eq!(a.write(&buf, 0).unwrap(), 0);
}

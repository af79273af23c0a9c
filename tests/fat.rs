use svsm_io::block::fat::{SeekFrom, WIoError, Wrap};
use svsm_io::block::ramdisk::RamDisk;

#[test]
fn stream_reads_and_writes_at_the_cursor() {
    let mut dev = RamDisk::from_content(&(0u8..16).collect());
    let mut w = Wrap::new(&mut dev);
    let mut buf = [0u8; 4];
    assert_eq!(w.read(&mut buf), Ok(4));
    assert_eq!(buf, [0, 1, 2, 3]);
    assert_eq!(w.write(&[0xaa, 0xbb]), Ok(2));
    assert_eq!(w.read(&mut buf), Ok(4));
    assert_eq!(buf, [6, 7, 8, 9]);
    assert_eq!(w.seek(SeekFrom::Start(4)), Ok(4));
    assert_eq!(w.read(&mut buf), Ok(4));
    assert_eq!(buf, [0xaa, 0xbb, 6, 7]);
    assert_eq!(w.flush(), Ok(()));
}

#[test]
fn stream_seek_limits() {
    let mut dev = RamDisk::new(100);
    let mut w = Wrap::new(&mut dev);
    assert_eq!(w.seek(SeekFrom::Start(100)), Err(WIoError::General));
    assert_eq!(w.seek(SeekFrom::End(0)), Err(WIoError::General));
    assert_eq!(w.seek(SeekFrom::End(-10)), Ok(90));
    assert_eq!(w.seek(SeekFrom::Current(5)), Ok(95));
    assert_eq!(w.seek(SeekFrom::Current(-96)), Err(WIoError::General));
    assert_eq!(w.seek(SeekFrom::Current(-95)), Ok(0));
    let mut buf = [1u8; 3];
    assert_eq!(w.seek(SeekFrom::Start(98)), Ok(98));
    assert_eq!(w.read(&mut buf), Ok(2));
    assert_eq!(w.read(&mut buf), Ok(0));
}

#[test]
fn io_error_kinds() {
    assert!(WIoError::Intr.is_interrupted());
    assert!(!WIoError::General.is_interrupted());
    assert_eq!(WIoError::new_unexpected_eof_error(), WIoError::Unex);
    assert_eq!(WIoError::new_write_zero_error(), WIoError::Wzero);
}

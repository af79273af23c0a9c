use svsm_io::block::error::BlockDeviceError;
use svsm_io::block::virtio_blk::{block_offset, block_size_log2, disk_size, transport_result};
use svsm_io::error::SvsmError;

#[test]
fn sector_arithmetic() {
    assert_eq!(block_size_log2(), 9);
    assert_eq!(disk_size(0), Some(0));
    assert_eq!(disk_size(8), Some(4096));
    assert_eq!(disk_size(u64::MAX), None);
    assert_eq!(block_offset(3), Some(1536));
    assert_eq!(block_offset(usize::MAX), None);
}

#[test]
fn transport_errors_become_device_failures() {
    assert_eq!(transport_result(Ok(())), Ok(()));
    assert_eq!(
        transport_result(Err(virtio_drivers::Error::IoError)),
        Err(SvsmError::Block(BlockDeviceError::Failed))
    );
}

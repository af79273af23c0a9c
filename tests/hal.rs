use svsm_io::error::SvsmError;
use svsm_io::virtio::hal::{virtio_init, BufferDirection, SvsmHal};

#[test]
fn dma_alloc_then_dealloc_restores_the_state() {
    let mut hal = SvsmHal::new(vec![0x1000, 0x2000]);
    let pa = hal.dma_alloc(1, BufferDirection::Both).unwrap();
    assert_eq!(pa, 0x2000);
    assert!(hal.is_shared(0x2000));
    let mut page = vec![0xffu8; 4096];
    hal.fetch(pa, &mut page);
    assert!(page.iter().all(|b| *b == 0));

    assert_eq!(hal.dma_dealloc(pa, 1), 0);
    assert!(!hal.is_shared(0x2000));
    assert_eq!(hal.dma_alloc(1, BufferDirection::Both), Ok(0x2000));
}

#[test]
fn dma_alloc_runs_out_of_frames() {
    let mut hal = virtio_init(vec![0x1000]);
    assert_eq!(hal.dma_alloc(1, BufferDirection::DeviceToDriver), Ok(0x1000));
    assert_eq!(hal.dma_alloc(1, BufferDirection::DeviceToDriver), Err(SvsmError::OutOfMemory));
    assert_eq!(hal.share(&[1, 2], BufferDirection::DriverToDevice), Err(SvsmError::OutOfMemory));
}

#[test]
fn reused_frame_comes_back_zeroed() {
    let mut hal = SvsmHal::new(vec![0x9000]);
    let pa = hal.dma_alloc(1, BufferDirection::Both).unwrap();
    hal.update(pa, 0, &[5, 6, 7]);
    hal.dma_dealloc(pa, 1);
    let pa = hal.dma_alloc(1, BufferDirection::Both).unwrap();
    let mut out = [1u8; 3];
    hal.fetch(pa, &mut out);
    assert_eq!(out, [0, 0, 0]);
}

#[test]
fn share_to_device_copies_the_buffer() {
    let mut hal = SvsmHal::new(vec![0x1000, 0x2000]);
    let buf = [10u8, 20, 30, 40];
    let pa = hal.share(&buf, BufferDirection::DriverToDevice).unwrap();
    let mut seen = [0xffu8; 6];
    hal.fetch(pa, &mut seen);
    assert_eq!(seen, [10, 20, 30, 40, 0, 0]);

    let mut back = [0u8; 4];
    hal.unshare(pa, &mut back, BufferDirection::DriverToDevice);
    assert_eq!(back, [0, 0, 0, 0]);
    assert!(!hal.is_shared(pa));
}

#[test]
fn share_from_device_does_not_expose_the_buffer() {
    let mut hal = SvsmHal::new(vec![0x1000]);
    let buf = [10u8, 20, 30, 40];
    let pa = hal.share(&buf, BufferDirection::DeviceToDriver).unwrap();
    let mut seen = [0xffu8; 4];
    hal.fetch(pa, &mut seen);
    assert_eq!(seen, [0, 0, 0, 0]);
}

#[test]
fn unshare_from_device_copies_back() {
    let mut hal = SvsmHal::new(vec![0x1000]);
    let mut buf = [0u8; 5];
    let pa = hal.share(&buf, BufferDirection::DeviceToDriver).unwrap();
    hal.update(pa, 1, &[7, 8, 9]);
    hal.unshare(pa, &mut buf, BufferDirection::DeviceToDriver);
    assert_eq!(buf, [0, 7, 8, 9, 0]);
    assert!(!hal.is_shared(pa));
    assert_eq!(hal.dma_alloc(1, BufferDirection::Both), Ok(0x1000));
}

#[test]
fn full_page_share_round_trip() {
    let mut hal = SvsmHal::new(vec![0x1000]);
    let data: Vec<u8> = (0..4096u32).map(|i| (i % 251) as u8).collect();
    let pa = hal.share(&data, BufferDirection::DriverToDevice).unwrap();
    let mut back = vec![0u8; 4096];
    hal.unshare(pa, &mut back, BufferDirection::DeviceToDriver);
    assert_eq!(back, data);
}

use std::cell::RefCell;

use svsm_io::block::error::BlockDeviceError;
use svsm_io::block::pflash::{FlashPort, MmioWrite, PageSegment, Pflash, TracedPort, READ_ARRAY_CMD, WRITE_BYTE_CMD};
use svsm_io::error::SvsmError;

const PAGE: usize = 4096;
const BASE: u64 = 0xffc0_0000;

/// A flash part that follows the command protocol: a write-byte command at an
/// address makes the next write to that address program the byte there.
struct EmulatedFlash {
    mem: Vec<u8>,
    pending: Option<u64>,
    array_mode: bool,
    log: Vec<MmioWrite>,
    fail_at: Option<u64>,
}

impl EmulatedFlash {
    fn new(pages: usize) -> Self {
        let mem = (0..pages * PAGE).map(|i| (i % 97) as u8).collect();
        EmulatedFlash { mem, pending: None, array_mode: true, log: Vec::new(), fail_at: None }
    }

    fn mmio_write_byte(&mut self, w: MmioWrite) {
        self.log.push(w);
        if let Some(a) = self.pending.take() {
            assert_eq!(a, w.pa);
            self.mem[(a - BASE) as usize] = w.value;
        } else if w.value == WRITE_BYTE_CMD {
            self.pending = Some(w.pa);
            self.array_mode = false;
        } else if w.value == READ_ARRAY_CMD {
            self.array_mode = true;
        }
    }

    fn page(&self, pa: u64) -> &[u8] {
        let start = (pa - BASE) as usize;
        &self.mem[start..start + PAGE]
    }
}

struct Port(RefCell<EmulatedFlash>);

impl FlashPort for Port {
    fn read_shared_page(&self, pa: u64, page: &mut [u8; 4096]) -> Result<(), SvsmError> {
        let emu = self.0.borrow();
        if emu.fail_at == Some(pa) {
            return Err(SvsmError::Block(BlockDeviceError::Failed));
        }
        page.copy_from_slice(emu.page(pa));
        Ok(())
    }

    fn program_page(&self, pa: u64, cmds: &[MmioWrite]) -> Result<(), SvsmError> {
        let mut emu = self.0.borrow_mut();
        if emu.fail_at == Some(pa) {
            return Err(SvsmError::Block(BlockDeviceError::Failed));
        }
        for c in cmds {
            assert!(c.pa >= pa && c.pa <= pa + PAGE as u64);
            emu.mmio_write_byte(*c);
        }
        Ok(())
    }
}

fn flash_write(d: &Pflash, emu: &mut EmulatedFlash, buf: &[u8], offset: usize) -> usize {
    let mut port = TracedPort::new(Port(RefCell::new(std::mem::replace(emu, EmulatedFlash::new(0)))));
    let n = d.write(&mut port, buf, offset).unwrap();
    assert!(port.reads().is_empty());
    *emu = port.into_inner().0.into_inner();
    n
}

fn flash_read(d: &Pflash, emu: &EmulatedFlash, buf: &mut [u8], offset: usize) -> usize {
    let copy = EmulatedFlash { mem: emu.mem.clone(), pending: None, array_mode: true, log: Vec::new(), fail_at: None };
    let mut port = TracedPort::new(Port(RefCell::new(copy)));
    let n = d.read(&mut port, buf, offset).unwrap();
    assert!(port.programs().is_empty());
    n
}

#[test]
fn flash_write_then_read_two_pages() {
    let d = Pflash::new(BASE, 2 * PAGE);
    let mut emu = EmulatedFlash::new(2);
    let before = emu.mem.clone();

    assert_eq!(flash_write(&d, &mut emu, &[0xcc, 0xaa, 0xbb], 0), 3);
    assert_eq!(
        emu.log,
        vec![
            MmioWrite { pa: BASE, value: WRITE_BYTE_CMD },
            MmioWrite { pa: BASE, value: 0xcc },
            MmioWrite { pa: BASE + 1, value: WRITE_BYTE_CMD },
            MmioWrite { pa: BASE + 1, value: 0xaa },
            MmioWrite { pa: BASE + 2, value: WRITE_BYTE_CMD },
            MmioWrite { pa: BASE + 2, value: 0xbb },
            MmioWrite { pa: BASE + 3, value: READ_ARRAY_CMD },
        ]
    );
    assert!(emu.array_mode);

    let mut buf = [0u8; 32];
    assert_eq!(flash_read(&d, &emu, &mut buf, 0), 32);
    assert_eq!(buf[..3], [0xcc, 0xaa, 0xbb]);
    assert_eq!(buf[3..], before[3..32]);
}

#[test]
fn flash_write_across_a_page_boundary() {
    let d = Pflash::new(BASE, 2 * PAGE);
    let mut emu = EmulatedFlash::new(2);
    assert_eq!(flash_write(&d, &mut emu, &[1, 2, 3, 4], PAGE - 2), 4);
    assert_eq!(emu.log.len(), 2 * 4 + 2);
    assert_eq!(emu.log[4], MmioWrite { pa: BASE + PAGE as u64, value: READ_ARRAY_CMD });
    assert_eq!(emu.log[9], MmioWrite { pa: BASE + PAGE as u64 + 2, value: READ_ARRAY_CMD });
    let mut buf = [0u8; 4];
    assert_eq!(flash_read(&d, &emu, &mut buf, PAGE - 2), 4);
    assert_eq!(buf, [1, 2, 3, 4]);
}

#[test]
fn flash_segments_follow_pages() {
    let d = Pflash::new(BASE, 2 * PAGE);
    let segs = d.segments(PAGE + 20, 10);
    assert_eq!(
        segs,
        vec![
            PageSegment { page: BASE, page_offset: 10, buf_offset: 0, len: PAGE - 10 },
            PageSegment { page: BASE + PAGE as u64, page_offset: 0, buf_offset: PAGE - 10, len: 30 },
        ]
    );
    assert!(d.segments(8, 2 * PAGE).is_empty());
    assert!(d.segments(0, 5).is_empty());
}

#[test]
fn flash_short_read_at_the_tail() {
    let d = Pflash::new(BASE, 2 * PAGE);
    let emu = EmulatedFlash::new(2);
    let mut buf = [0u8; 32];
    assert_eq!(flash_read(&d, &emu, &mut buf, 2 * PAGE - 16), 16);
    assert_eq!(buf[..16], emu.mem[2 * PAGE - 16..]);
    assert_eq!(buf[16..], [0u8; 16]);
    assert_eq!(flash_read(&d, &emu, &mut buf, 2 * PAGE + 5), 0);
}

#[test]
fn flash_write_past_end_issues_nothing() {
    let d = Pflash::new(BASE, 2 * PAGE);
    let mut emu = EmulatedFlash::new(2);
    assert_eq!(flash_write(&d, &mut emu, &[1, 2, 3], 2 * PAGE), 0);
    assert!(emu.log.is_empty());
    assert_eq!(flash_write(&d, &mut emu, &[1, 2, 3], 2 * PAGE - 1), 1);
    assert_eq!(emu.log.len(), 3);
}

#[test]
fn flash_page_addresses() {
    let d = Pflash::new(BASE, 2 * PAGE);
    assert_eq!(d.get_pa(0), (BASE, 0));
    assert_eq!(d.get_pa(PAGE + 7), (BASE + PAGE as u64, 7));
    assert_eq!(d.size(), 2 * PAGE);
}

#[test]
fn flash_read_page_stops_at_page_end() {
    let d = Pflash::new(BASE, 2 * PAGE);
    let page: Vec<u8> = (0..PAGE).map(|i| (i % 200) as u8).collect();
    let mut buf = [0xeeu8; 8];
    assert_eq!(d.read_page(&mut buf, PAGE - 3, &page), 3);
    assert_eq!(buf, [page[PAGE - 3], page[PAGE - 2], page[PAGE - 1], 0xee, 0xee, 0xee, 0xee, 0xee]);
}

#[test]
fn flash_port_failure_is_reported() {
    let d = Pflash::new(BASE, 2 * PAGE);
    let mut emu = EmulatedFlash::new(2);
    emu.fail_at = Some(BASE + PAGE as u64);
    let mut port = TracedPort::new(Port(RefCell::new(emu)));
    let mut buf = [0u8; 8];
    // The first page is fetched, the second fails: the error comes back.
    assert_eq!(d.read(&mut port, &mut buf, PAGE - 4), Err(SvsmError::Block(BlockDeviceError::Failed)));
    assert_eq!(port.reads().len(), 2);
    assert_eq!(port.reads()[0].pa, BASE);
    assert_eq!(port.reads()[1].result, Err(SvsmError::Block(BlockDeviceError::Failed)));
    // A write across the failing page programs the first page only.
    assert_eq!(d.write(&mut port, &[1, 2, 3, 4, 5, 6], PAGE - 2), Err(SvsmError::Block(BlockDeviceError::Failed)));
    assert_eq!(port.programs().len(), 2);
    assert_eq!(port.programs()[0].cmds.len(), 5);
    assert_eq!(port.programs()[0].result, Ok(()));
    // Nothing to transfer: the port is never asked.
    assert_eq!(d.read(&mut port, &mut buf, 2 * PAGE), Ok(0));
    assert_eq!(d.write(&mut port, &[], 0), Ok(0));
    assert_eq!(d.write(&mut port, &[1], 2 * PAGE), Ok(0));
    assert_eq!(port.reads().len(), 2);
    assert_eq!(port.programs().len(), 2);
}

#[test]
fn flash_trace_records_pages_and_commands() {
    let d = Pflash::new(BASE, 2 * PAGE);
    let emu = EmulatedFlash::new(2);
    let mut port = TracedPort::new(Port(RefCell::new(emu)));
    assert_eq!(d.write(&mut port, &[0xcc, 0xaa, 0xbb], 0), Ok(3));
    assert_eq!(port.programs().len(), 1);
    assert_eq!(port.programs()[0].pa, BASE);
    assert_eq!(port.programs()[0].cmds.len(), 7);
    assert_eq!(port.programs()[0].cmds[6], MmioWrite { pa: BASE + 3, value: READ_ARRAY_CMD });
    let mut buf = [0u8; 32];
    assert_eq!(d.read(&mut port, &mut buf, 0), Ok(32));
    assert_eq!(port.reads().len(), 1);
    assert_eq!(port.reads()[0].page[..3], [0xcc, 0xaa, 0xbb]);
    assert_eq!(buf[..], port.reads()[0].page[..32]);
}

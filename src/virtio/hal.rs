use vstd::prelude::*;

use crate::error::SvsmError;
use crate::mem::PAGE_SIZE;
use crate::registry::{pages_ok, SharedPage, SharedPageRegistry};

verus! {

/// Who may write a buffer handed to a device.
#[derive(Debug, Clone, Copy, PartialEq, Eq, Structural)]
pub enum BufferDirection {
    /// Written by the driver, read by the device.
    DriverToDevice,
    /// Written by the device, read by the driver.
    DeviceToDriver,
    /// Written and read by both.
    Both,
}

/// A page of zero bytes.
pub open spec fn zero_page() -> Seq<u8> {
    Seq::new(PAGE_SIZE as nat, |i: int| 0u8)
}

/// Contents of a freshly shared page for a buffer of bytes `buf`: a copy of the
/// buffer when it goes to the device, zeros otherwise.
pub open spec fn shared_copy(buf: Seq<u8>, direction: BufferDirection) -> Seq<u8> {
    if direction == BufferDirection::DriverToDevice {
        buf + Seq::new((PAGE_SIZE - buf.len()) as nat, |i: int| 0u8)
    } else {
        zero_page()
    }
}

/// The bytes a buffer of `buf` holds after the shared page `page` is given up:
/// the start of the page when the device wrote it, the buffer as it was
/// otherwise.
pub open spec fn copy_back(page: Seq<u8>, buf: Seq<u8>, direction: BufferDirection) -> Seq<u8> {
    if direction == BufferDirection::DeviceToDriver {
        page.subrange(0, buf.len() as int)
    } else {
        buf
    }
}

/// The platform side of a device transport: hands out DMA memory and bounce
/// pages that are shared with the host, and takes them back.
///
/// Private frames wait in a pool; a frame leaves the pool only to become a
/// shared page in the registry, and comes back to the pool only when its handle
/// is given up. No frame is ever both private and shared.
pub struct SvsmHal {
    registry: SharedPageRegistry,
    free: Vec<u64>,
}

impl SvsmHal {
    /// Pages shared with the host, by physical address.
    pub closed spec fn shared(&self) -> Map<u64, Seq<u8>> {
        self.registry@
    }

    /// Private frames available for sharing; the last one goes first.
    pub closed spec fn private_frames(&self) -> Seq<u64> {
        self.free@
    }

    pub closed spec fn wf(&self) -> bool {
        &&& self.registry.wf()
        &&& self.free@.no_duplicates()
        &&& forall|i: int|
            0 <= i < self.free@.len() ==> (#[trigger] self.free@[i]) % (PAGE_SIZE as u64) == 0
                && !self.registry@.contains_key(self.free@[i])
    }

    /// No frame is private and shared at once, no private frame waits twice in
    /// the pool, and every shared page is a whole, aligned page.
    pub proof fn lemma_visibility(&self)
        requires
            self.wf(),
        ensures
            forall|i: int| 0 <= i < self.private_frames().len() ==> !self.shared().contains_key(
                #[trigger] self.private_frames()[i],
            ),
            self.private_frames().no_duplicates(),
            pages_ok(self.shared()),
    {
        self.registry.lemma_pages_ok();
    }

    /// A platform with the private frames `frames` and no shared page.
    pub fn new(frames: Vec<u64>) -> (r: Self)
        requires
            frames@.no_duplicates(),
            forall|i: int| 0 <= i < frames@.len() ==> (#[trigger] frames@[i]) % (PAGE_SIZE as u64) == 0,
        ensures
            r.wf(),
            r.shared() == Map::<u64, Seq<u8>>::empty(),
            r.private_frames() == frames@,
    {
        SvsmHal { registry: SharedPageRegistry::new(), free: frames }
    }

    /// Takes the next private frame, shares it and records it zero filled.
    fn share_frame(&mut self) -> (r: Result<u64, SvsmError>)
        requires
            old(self).wf(),
        ensures
            final(self).wf(),
            old(self).private_frames().len() == 0 ==> r == Err::<u64, SvsmError>(SvsmError::OutOfMemory)
                && final(self).shared() == old(self).shared()
                && final(self).private_frames() == old(self).private_frames(),
            old(self).private_frames().len() > 0 ==> r == Ok::<u64, SvsmError>(old(self).private_frames().last())
                && final(self).private_frames() == old(self).private_frames().drop_last()
                && final(self).shared() == old(self).shared().insert(
                old(self).private_frames().last(),
                zero_page(),
            ),
    {
        match self.free.pop() {
            None => Err(SvsmError::OutOfMemory),
            Some(pa) => {
                proof {
                    let n = old(self).free@.len() - 1;
                    assert(old(self).free@[n] == pa);
                    assert(self.free@ == old(self).free@.drop_last());
                }
                let page = SharedPage::new(pa);
                self.registry.push(pa, page);
                proof {
                    let n = old(self).free@.len() - 1;
                    assert forall|i: int| 0 <= i < self.free@.len() implies (#[trigger] self.free@[i])
                        % (PAGE_SIZE as u64) == 0 && !self.registry@.contains_key(self.free@[i]) by {
                        assert(self.free@[i] == old(self).free@[i]);
                        assert(old(self).free@[i] != old(self).free@[n]);
                    }
                }
                Ok(pa)
            },
        }
    }

    /// Gives up the shared page at `pa` and returns its frame to the pool.
    fn release(&mut self, pa: u64) -> (r: SharedPage)
        requires
            old(self).wf(),
            old(self).shared().contains_key(pa),
        ensures
            final(self).wf(),
            r.inv(),
            r.addr() == pa,
            r.bytes() == old(self).shared()[pa],
            final(self).shared() == old(self).shared().remove(pa),
            final(self).private_frames() == old(self).private_frames().push(pa),
    {
        let popped = self.registry.pop(pa);
        match popped {
            Some(page) => {
                proof {
                    assert forall|i: int| 0 <= i < old(self).free@.len() implies (#[trigger] old(self).free@[i])
                        != pa by {}
                    old(self).registry.lemma_pages_ok();
                    assert(old(self).registry@.contains_key(pa));
                }
                self.free.push(pa);
                proof {
                    let n = old(self).free@.len() as int;
                    assert forall|i: int| 0 <= i < self.free@.len() implies (#[trigger] self.free@[i])
                        % (PAGE_SIZE as u64) == 0 && !self.registry@.contains_key(self.free@[i]) by {
                        if i < n {
                            assert(self.free@[i] == old(self).free@[i]);
                        }
                    }
                    assert forall|i: int, j: int|
                        0 <= i < self.free@.len() && 0 <= j < self.free@.len() && i != j implies self.free@[i]
                            != self.free@[j] by {
                        if i < n && j < n {
                            assert(old(self).free@.no_duplicates());
                        }
                    }
                }
                page
            },
            None => {
                proof {
                    assert(false);
                }
                SharedPage::new(pa)
            },
        }
    }

    /// Allocates one zero-filled page of DMA memory that is shared with the
    /// host, and returns its physical address. Only single pages are handed
    /// out; running out of private frames is reported as
    /// `SvsmError::OutOfMemory`.
    pub fn dma_alloc(&mut self, pages: usize, direction: BufferDirection) -> (r: Result<u64, SvsmError>)
        requires
            old(self).wf(),
            pages == 1,
        ensures
            final(self).wf(),
            old(self).private_frames().len() == 0 ==> r == Err::<u64, SvsmError>(SvsmError::OutOfMemory)
                && final(self).shared() == old(self).shared()
                && final(self).private_frames() == old(self).private_frames(),
            old(self).private_frames().len() > 0 ==> r == Ok::<u64, SvsmError>(old(self).private_frames().last())
                && final(self).private_frames() == old(self).private_frames().drop_last()
                && final(self).shared() == old(self).shared().insert(
                old(self).private_frames().last(),
                zero_page(),
            ),
    {
        self.share_frame()
    }

    /// Gives back DMA memory obtained from `dma_alloc`: the page stops being
    /// shared and its frame returns to the private pool.
    pub fn dma_dealloc(&mut self, paddr: u64, pages: usize) -> (r: i32)
        requires
            old(self).wf(),
            pages == 1,
            old(self).shared().contains_key(paddr),
        ensures
            final(self).wf(),
            r == 0,
            final(self).shared() == old(self).shared().remove(paddr),
            final(self).private_frames() == old(self).private_frames().push(paddr),
    {
        let _page = self.release(paddr);
        0
    }

    /// Places `buffer` in a fresh shared page and returns the page's physical
    /// address. The buffer's bytes are copied only when they go to the device.
    pub fn share(&mut self, buffer: &[u8], direction: BufferDirection) -> (r: Result<u64, SvsmError>)
        requires
            old(self).wf(),
            buffer@.len() <= PAGE_SIZE,
        ensures
            final(self).wf(),
            old(self).private_frames().len() == 0 ==> r == Err::<u64, SvsmError>(SvsmError::OutOfMemory)
                && final(self).shared() == old(self).shared()
                && final(self).private_frames() == old(self).private_frames(),
            old(self).private_frames().len() > 0 ==> r == Ok::<u64, SvsmError>(old(self).private_frames().last())
                && final(self).private_frames() == old(self).private_frames().drop_last()
                && final(self).shared() == old(self).shared().insert(
                old(self).private_frames().last(),
                shared_copy(buffer@, direction),
            ),
    {
        let pa = match self.share_frame() {
            Err(e) => return Err(e),
            Ok(pa) => pa,
        };
        if direction == BufferDirection::DriverToDevice {
            self.update(pa, 0, buffer);
            proof {
                assert(zero_page().subrange(0, 0) + buffer@ + zero_page().subrange(
                    buffer@.len() as int,
                    PAGE_SIZE as int,
                ) =~= shared_copy(buffer@, direction));
            }
        }
        Ok(pa)
    }

    /// Gives up the shared page at `paddr` that `share` returned for `buffer`.
    /// When the device wrote the page, its first `buffer.len()` bytes are
    /// copied back into `buffer`.
    pub fn unshare(&mut self, paddr: u64, buffer: &mut [u8], direction: BufferDirection)
        requires
            old(self).wf(),
            old(self).shared().contains_key(paddr),
            old(buffer)@.len() <= PAGE_SIZE,
        ensures
            final(self).wf(),
            final(buffer)@ == copy_back(old(self).shared()[paddr], old(buffer)@, direction),
            final(self).shared() == old(self).shared().remove(paddr),
            final(self).private_frames() == old(self).private_frames().push(paddr),
    {
        let page = self.release(paddr);
        if direction == BufferDirection::DeviceToDriver {
            page.read_bytes(buffer);
        }
    }

    /// Whether the page at `paddr` is shared with the host.
    pub fn is_shared(&self, paddr: u64) -> (r: bool)
        requires
            self.wf(),
        ensures
            r == self.shared().contains_key(paddr),
    {
        self.registry.contains(paddr)
    }

    /// Stores `src` at byte `offset` of the shared page at `paddr`, as the
    /// device does when it fills a buffer.
    pub fn update(&mut self, paddr: u64, offset: usize, src: &[u8])
        requires
            old(self).wf(),
            old(self).shared().contains_key(paddr),
            offset + src@.len() <= PAGE_SIZE,
        ensures
            final(self).wf(),
            final(self).private_frames() == old(self).private_frames(),
            final(self).shared() == old(self).shared().insert(
                paddr,
                old(self).shared()[paddr].subrange(0, offset as int) + src@
                    + old(self).shared()[paddr].subrange(offset + src@.len(), PAGE_SIZE as int),
            ),
    {
        let popped = self.registry.pop(paddr);
        match popped {
            Some(mut page) => {
                page.write_bytes(offset, src);
                self.registry.push(paddr, page);
                proof {
                    assert(self.registry@ =~= old(self).registry@.insert(
                        paddr,
                        old(self).registry@[paddr].subrange(0, offset as int) + src@
                            + old(self).registry@[paddr].subrange(offset + src@.len(), PAGE_SIZE as int),
                    ));
                    assert forall|i: int| 0 <= i < self.free@.len() implies (#[trigger] self.free@[i])
                        % (PAGE_SIZE as u64) == 0 && !self.registry@.contains_key(self.free@[i]) by {
                        assert(!old(self).registry@.contains_key(self.free@[i]));
                    }
                }
            },
            None => {},
        }
    }

    /// Copies the first `dst.len()` bytes of the shared page at `paddr` into
    /// `dst`, as the device does when it reads a buffer.
    pub fn fetch(&self, paddr: u64, dst: &mut [u8])
        requires
            self.wf(),
            self.shared().contains_key(paddr),
            old(dst)@.len() <= PAGE_SIZE,
        ensures
            final(dst)@ == self.shared()[paddr].subrange(0, old(dst)@.len() as int),
    {
        match self.registry.get(paddr) {
            Some(page) => page.read_bytes(dst),
            None => {},
        }
    }
}

/// Sets up the platform side of the device transports at boot, with the
/// private frames `frames` set aside for sharing.
pub fn virtio_init(frames: Vec<u64>) -> (r: SvsmHal)
    requires
        frames@.no_duplicates(),
        forall|i: int| 0 <= i < frames@.len() ==> (#[trigger] frames@[i]) % (PAGE_SIZE as u64) == 0,
    ensures
        r.wf(),
        r.shared() == Map::<u64, Seq<u8>>::empty(),
        r.private_frames() == frames@,
{
    SvsmHal::new(frames)
}

/// Allocating one page of DMA memory and giving it back leaves the shared
/// pages and the private pool as they were: `allocated` is the platform after
/// `dma_alloc(1, _)` returned `pa`, and `after` the platform after
/// `dma_dealloc(pa, 1)`.
pub proof fn lemma_alloc_dealloc(before: SvsmHal, allocated: SvsmHal, after: SvsmHal, pa: u64)
    requires
        before.wf(),
        before.private_frames().len() > 0,
        pa == before.private_frames().last(),
        allocated.shared() == before.shared().insert(pa, zero_page()),
        allocated.private_frames() == before.private_frames().drop_last(),
        after.shared() == allocated.shared().remove(pa),
        after.private_frames() == allocated.private_frames().push(pa),
    ensures
        after.shared() == before.shared(),
        after.private_frames() == before.private_frames(),
{
    before.lemma_visibility();
    let n = before.private_frames().len() - 1;
    assert(!before.shared().contains_key(before.private_frames()[n]));
    assert(after.shared() =~= before.shared());
    assert(after.private_frames() =~= before.private_frames());
}

/// A buffer shared towards the device and copied back from the device, with
/// nothing written in between, comes back unchanged; the device sees exactly
/// the buffer's bytes at the start of the page.
pub proof fn lemma_share_round_trip(buf: Seq<u8>, other: Seq<u8>)
    requires
        buf.len() <= PAGE_SIZE,
        other.len() == buf.len(),
    ensures
        shared_copy(buf, BufferDirection::DriverToDevice).len() == PAGE_SIZE,
        shared_copy(buf, BufferDirection::DriverToDevice).subrange(0, buf.len() as int) == buf,
        copy_back(shared_copy(buf, BufferDirection::DriverToDevice), other, BufferDirection::DeviceToDriver)
            == buf,
{
    assert(shared_copy(buf, BufferDirection::DriverToDevice).subrange(0, buf.len() as int) =~= buf);
}

} // verus!

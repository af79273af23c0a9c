use vstd::prelude::*;

use crate::block::api::{clamp_offset, transfer_len};
use crate::block::error::BlockDeviceError;
use crate::error::SvsmError;
use crate::mem::{zeroed, PAGE_SIZE};

verus! {

/// Command that makes the next byte written to a location be programmed there.
pub const WRITE_BYTE_CMD: u8 = 0x10;

/// Command that returns the device to reading array data.
pub const READ_ARRAY_CMD: u8 = 0xff;

/// One byte written to a device register through the hypervisor.
#[derive(Debug, Clone, Copy, PartialEq, Eq, Structural)]
pub struct MmioWrite {
    pub pa: u64,
    pub value: u8,
}

/// The part of a transfer that falls into one page of the device: `len` bytes
/// at `page_offset` in the page at physical address `page`, matching the bytes
/// at `buf_offset` of the caller's buffer.
#[derive(Debug, Clone, Copy, PartialEq, Eq, Structural)]
pub struct PageSegment {
    pub page: u64,
    pub page_offset: usize,
    pub buf_offset: usize,
    pub len: usize,
}

/// The writes that program `data` at physical address `pa`: for each byte the
/// write-byte command and then the byte at its address, and finally the
/// read-array command just past the last byte.
pub open spec fn write_sequence(pa: int, data: Seq<u8>) -> Seq<MmioWrite> {
    Seq::new(
        (2 * data.len() + 1) as nat,
        |k: int|
            if k == 2 * data.len() {
                MmioWrite { pa: (pa + data.len()) as u64, value: READ_ARRAY_CMD }
            } else if k % 2 == 0 {
                MmioWrite { pa: (pa + k / 2) as u64, value: WRITE_BYTE_CMD }
            } else {
                MmioWrite { pa: (pa + k / 2) as u64, value: data[k / 2] }
            },
    )
}

/// Access to the flash device's pages, provided by the platform. Each call
/// maps the page at `pa` shared for its own duration only.
pub trait FlashPort {
    /// Copies the page at `pa` into `page`.
    fn read_shared_page(&self, pa: u64, page: &mut [u8; 4096]) -> Result<(), SvsmError>;

    /// Performs the register writes `cmds`, in order, on the page at `pa`.
    fn program_page(&self, pa: u64, cmds: &[MmioWrite]) -> Result<(), SvsmError>;
}

/// One page fetched through a [`FlashPort`]: its address, the bytes that came
/// back, and the port's answer.
#[derive(Debug)]
pub struct PageRead {
    pub pa: u64,
    pub page: [u8; 4096],
    pub result: Result<(), SvsmError>,
}

/// One page programmed through a [`FlashPort`]: its address, the register
/// writes handed over, and the port's answer.
#[derive(Debug)]
pub struct PageProgram {
    pub pa: u64,
    pub cmds: Vec<MmioWrite>,
    pub result: Result<(), SvsmError>,
}

/// A [`FlashPort`] together with the record of every exchange made through
/// it, in order: what was asked of the host and what came back.
#[derive(Debug)]
pub struct TracedPort<P: FlashPort> {
    port: P,
    reads: Vec<PageRead>,
    programs: Vec<PageProgram>,
}

impl<P: FlashPort> TracedPort<P> {
    /// The pages fetched so far.
    pub closed spec fn read_log(&self) -> Seq<PageRead> {
        self.reads@
    }

    /// The pages programmed so far.
    pub closed spec fn program_log(&self) -> Seq<PageProgram> {
        self.programs@
    }

    /// `port`, with nothing recorded yet.
    pub fn new(port: P) -> (r: Self)
        ensures
            r.read_log() == Seq::<PageRead>::empty(),
            r.program_log() == Seq::<PageProgram>::empty(),
    {
        TracedPort { port, reads: Vec::new(), programs: Vec::new() }
    }

    /// The pages fetched so far.
    pub fn reads(&self) -> (r: &Vec<PageRead>)
        ensures
            r@ == self.read_log(),
    {
        &self.reads
    }

    /// The pages programmed so far.
    pub fn programs(&self) -> (r: &Vec<PageProgram>)
        ensures
            r@ == self.program_log(),
    {
        &self.programs
    }

    /// Fetches the page at `pa` into `page` and records the exchange.
    pub fn read_shared_page(&mut self, pa: u64, page: &mut [u8; 4096]) -> (r: Result<(), SvsmError>)
        ensures
            final(self).program_log() == old(self).program_log(),
            final(self).read_log().len() == old(self).read_log().len() + 1,
            final(self).read_log().subrange(0, old(self).read_log().len() as int) == old(self).read_log(),
            final(self).read_log().last().pa == pa,
            final(self).read_log().last().page@ == final(page)@,
            final(self).read_log().last().result == r,
    {
        let r = self.port.read_shared_page(pa, page);
        let ghost before = self.reads@;
        self.reads.push(PageRead { pa, page: *page, result: r });
        assert(self.reads@.subrange(0, before.len() as int) =~= before);
        r
    }

    /// Programs the page at `pa` with `cmds` and records the exchange.
    pub fn program_page(&mut self, pa: u64, cmds: Vec<MmioWrite>) -> (r: Result<(), SvsmError>)
        ensures
            final(self).read_log() == old(self).read_log(),
            final(self).program_log().len() == old(self).program_log().len() + 1,
            final(self).program_log().subrange(0, old(self).program_log().len() as int) == old(
                self,
            ).program_log(),
            final(self).program_log().last().pa == pa,
            final(self).program_log().last().cmds@ == cmds@,
            final(self).program_log().last().result == r,
    {
        let r = self.port.program_page(pa, cmds.as_slice());
        let ghost before = self.programs@;
        self.programs.push(PageProgram { pa, cmds, result: r });
        assert(self.programs@.subrange(0, before.len() as int) =~= before);
        r
    }

    /// The port, with the record dropped.
    pub fn into_inner(self) -> P {
        self.port
    }
}

/// Copies the `s.len` bytes at `s.page_offset` of `page` to `s.buf_offset` of
/// `buf`.
pub fn copy_segment(buf: &mut [u8], s: PageSegment, page: &[u8])
    requires
        s.buf_offset + s.len <= old(buf)@.len(),
        s.page_offset + s.len <= page@.len(),
    ensures
        final(buf)@ == old(buf)@.subrange(0, s.buf_offset as int) + page@.subrange(
            s.page_offset as int,
            s.page_offset + s.len,
        ) + old(buf)@.subrange(s.buf_offset + s.len, old(buf)@.len() as int),
{
    let mut k: usize = 0;
    while k < s.len
        invariant
            s.buf_offset + s.len <= buf.len(),
            s.page_offset + s.len <= page.len(),
            k <= s.len,
            buf@.len() == old(buf)@.len(),
            forall|j: int| 0 <= j < s.buf_offset ==> buf@[j] == old(buf)@[j],
            forall|j: int| 0 <= j < k ==> buf@[s.buf_offset + j] == #[trigger] page@[s.page_offset + j],
            forall|j: int| s.buf_offset + k <= j < buf@.len() ==> buf@[j] == old(buf)@[j],
        decreases s.len - k,
    {
        buf[s.buf_offset + k] = page[s.page_offset + k];
        k = k + 1;
    }
    let ghost a = old(buf)@.subrange(0, s.buf_offset as int);
    let ghost m = page@.subrange(s.page_offset as int, s.page_offset + s.len);
    let ghost c = old(buf)@.subrange(s.buf_offset + s.len, old(buf)@.len() as int);
    assert forall|j: int| 0 <= j < buf@.len() implies buf@[j] == (a + m + c)[j] by {
        if j < s.buf_offset {
        } else if j < s.buf_offset + s.len {
            let d = j - s.buf_offset;
            assert(buf@[s.buf_offset + d] == page@[s.page_offset + d]);
        } else {
        }
    }
    assert(buf@ =~= a + m + c);
}

/// A memory-mapped flash device at a page-aligned physical address, whose
/// size is a whole number of pages.
#[derive(Debug)]
pub struct Pflash {
    base_address: u64,
    size: usize,
}

impl Pflash {
    /// Physical address of the first byte of the device.
    pub closed spec fn base(&self) -> u64 {
        self.base_address
    }

    /// Size of the device in bytes.
    pub closed spec fn len(&self) -> nat {
        self.size as nat
    }

    pub open spec fn wf(&self) -> bool {
        &&& self.base() % (PAGE_SIZE as u64) == 0
        &&& self.len() % (PAGE_SIZE as nat) == 0
        &&& self.base() + self.len() <= u64::MAX
    }

    /// The physical page that holds byte `pos` of the device.
    pub open spec fn page_of(&self, pos: int) -> int {
        (self.base() + pos) - (self.base() + pos) % (PAGE_SIZE as int)
    }

    /// Where byte `pos` of the device lies within its page.
    pub open spec fn offset_in_page(&self, pos: int) -> int {
        (self.base() + pos) % (PAGE_SIZE as int)
    }

    /// `segs` splits a transfer of `buf_len` bytes at `offset` into pieces
    /// that each stay within one page, in order, and that each run to the end
    /// of their page but the last.
    #[verifier::opaque]
    pub open spec fn segments_ok(&self, segs: Seq<PageSegment>, buf_len: int, offset: int) -> bool {
        let start = clamp_offset(self.len() as int, offset);
        let total = transfer_len(self.len() as int, offset, buf_len);
        &&& segs.len() == 0 <==> total == 0
        &&& segs.len() > 0 ==> segs[0].buf_offset == 0 && segs.last().buf_offset + segs.last().len == total
        &&& forall|i: int|
            0 <= i < segs.len() ==> {
                let s = #[trigger] segs[i];
                &&& s.len > 0
                &&& s.buf_offset + s.len <= total
                &&& s.page == self.page_of(start + s.buf_offset)
                &&& s.page_offset == self.offset_in_page(start + s.buf_offset)
                &&& s.page_offset + s.len <= PAGE_SIZE
            }
        &&& forall|i: int|
            0 <= i < segs.len() - 1 ==> segs[i + 1].buf_offset == (#[trigger] segs[i]).buf_offset
                + segs[i].len && segs[i].page_offset + segs[i].len == PAGE_SIZE
        &&& forall|i: int, j: int|
            0 <= i < j < segs.len() ==> (#[trigger] segs[i]).buf_offset + segs[i].len <= (
            #[trigger] segs[j]).buf_offset
    }

    /// `log` records the fetches of a read along the pieces `segs`: one per
    /// piece, in order, ending at the first failure, whose error is the
    /// result. On success every piece of the buffer holds the bytes of its
    /// fetched page.
    pub open spec fn read_trace_ok(
        &self,
        segs: Seq<PageSegment>,
        log: Seq<PageRead>,
        buf: Seq<u8>,
        r: Result<usize, SvsmError>,
    ) -> bool {
        &&& log.len() <= segs.len()
        &&& forall|i: int| 0 <= i < log.len() ==> (#[trigger] log[i]).pa == segs[i].page
        &&& forall|i: int| 0 <= i < log.len() - 1 ==> (#[trigger] log[i]).result is Ok
        &&& r is Ok ==> log.len() == segs.len() && (forall|i: int|
            0 <= i < log.len() ==> (#[trigger] log[i]).result is Ok) && (forall|i: int, k: int|
            0 <= i < segs.len() && 0 <= k < segs[i].len ==> buf[segs[i].buf_offset + k]
                == #[trigger] log[i].page@[segs[i].page_offset + k])
        &&& r matches Err(e) ==> log.len() > 0 && log.last().result == Err::<(), SvsmError>(e)
    }

    /// `log` records the programming of a write of `buf` at `offset` along
    /// the pieces `segs`: one per piece, in order, each with exactly the
    /// register writes for the piece's bytes, ending at the first failure,
    /// whose error is the result.
    pub open spec fn write_trace_ok(
        &self,
        segs: Seq<PageSegment>,
        log: Seq<PageProgram>,
        buf: Seq<u8>,
        offset: int,
        r: Result<usize, SvsmError>,
    ) -> bool {
        let start = clamp_offset(self.len() as int, offset);
        &&& log.len() <= segs.len()
        &&& forall|i: int|
            0 <= i < log.len() ==> (#[trigger] log[i]).pa == segs[i].page && log[i].cmds@ == write_sequence(
                self.base() + start + segs[i].buf_offset,
                buf.subrange(segs[i].buf_offset as int, segs[i].buf_offset + segs[i].len),
            )
        &&& forall|i: int| 0 <= i < log.len() - 1 ==> (#[trigger] log[i]).result is Ok
        &&& r is Ok ==> log.len() == segs.len() && (forall|i: int|
            0 <= i < log.len() ==> (#[trigger] log[i]).result is Ok)
        &&& r matches Err(e) ==> log.len() > 0 && log.last().result == Err::<(), SvsmError>(e)
    }

    /// A device of `size` bytes at physical address `base_address`.
    pub fn new(base_address: u64, size: usize) -> (r: Self)
        requires
            base_address % (PAGE_SIZE as u64) == 0,
            size % PAGE_SIZE == 0,
            base_address + size <= u64::MAX,
        ensures
            r.wf(),
            r.base() == base_address,
            r.len() == size,
    {
        Pflash { base_address, size }
    }

    /// The physical page that holds byte `offset` of the device, and where the
    /// byte lies within it.
    pub fn get_pa(&self, offset: usize) -> (r: (u64, usize))
        requires
            self.wf(),
            offset <= self.len(),
        ensures
            r.0 == self.page_of(offset as int),
            r.1 == self.offset_in_page(offset as int),
            r.1 < PAGE_SIZE,
            r.0 + PAGE_SIZE <= self.base() + self.len() || offset == self.len(),
    {
        let pa: u64 = self.base_address + offset as u64;
        let poffs: u64 = pa % (PAGE_SIZE as u64);
        proof {
            let b = self.base_address as int;
            let o = offset as int;
            let p = PAGE_SIZE as int;
            assert(b % p == 0);
            assert(self.size as int % p == 0);
            assert((b + o) - (b + o) % p + p <= b + self.size || o == self.size) by (nonlinear_arith)
                requires
                    b % p == 0,
                    (self.size as int) % p == 0,
                    0 <= o <= self.size,
                    p > 0,
                    b >= 0,
            {
                if o < self.size {
                    let q = b / p;
                    let s = (self.size as int) / p;
                    let c = (b + o) / p;
                    assert(b == q * p);
                    assert(self.size as int == s * p);
                    assert(b + o == c * p + (b + o) % p);
                    assert(c * p < (q + s) * p);
                    assert(c < q + s);
                    assert(c + 1 <= q + s);
                    assert((c + 1) * p <= (q + s) * p);
                }
            }
        }
        (pa - poffs, poffs as usize)
    }

    /// Splits a transfer of `buf_len` bytes at `offset` into page-sized
    /// pieces. The transfer stops at the end of the device.
    pub fn segments(&self, buf_len: usize, offset: usize) -> (r: Vec<PageSegment>)
        requires
            self.wf(),
        ensures
            self.segments_ok(r@, buf_len as int, offset as int),
    {
        let size = self.size;
        let start = if offset < size { offset } else { size };
        let total = if buf_len < size - start { buf_len } else { size - start };
        let mut segs: Vec<PageSegment> = Vec::new();
        let mut done: usize = 0;
        while done < total
            invariant
                self.wf(),
                size == self.len(),
                start == clamp_offset(size as int, offset as int),
                total == transfer_len(size as int, offset as int, buf_len as int),
                start + total <= size,
                done <= total,
                segs@.len() == 0 ==> done == 0,
                segs@.len() > 0 ==> segs@[0].buf_offset == 0 && segs@.last().buf_offset + segs@.last().len
                    == done,
                segs@.len() > 0 && done < total ==> segs@.last().page_offset + segs@.last().len == PAGE_SIZE,
                forall|i: int|
                    0 <= i < segs@.len() ==> {
                        let s = #[trigger] segs@[i];
                        &&& s.len > 0
                        &&& s.buf_offset + s.len <= done
                        &&& s.page == self.page_of(start + s.buf_offset)
                        &&& s.page_offset == self.offset_in_page(start + s.buf_offset)
                        &&& s.page_offset + s.len <= PAGE_SIZE
                    },
                forall|i: int|
                    0 <= i < segs@.len() - 1 ==> segs@[i + 1].buf_offset == (#[trigger] segs@[i]).buf_offset
                        + segs@[i].len && segs@[i].page_offset + segs@[i].len == PAGE_SIZE,
                forall|i: int, j: int|
                    0 <= i < j < segs@.len() ==> (#[trigger] segs@[i]).buf_offset + segs@[i].len <= (
                    #[trigger] segs@[j]).buf_offset,
            decreases total - done,
        {
            let (page, poffs) = self.get_pa(start + done);
            let room = PAGE_SIZE - poffs;
            let n = if room < total - done { room } else { total - done };
            let seg = PageSegment { page, page_offset: poffs, buf_offset: done, len: n };
            let ghost old_segs = segs@;
            segs.push(seg);
            proof {
                assert forall|i: int| 0 <= i < segs@.len() - 1 implies segs@[i + 1].buf_offset
                    == (#[trigger] segs@[i]).buf_offset + segs@[i].len && segs@[i].page_offset + segs@[i].len
                    == PAGE_SIZE by {
                    assert(segs@[i] == old_segs[i]);
                    if i < old_segs.len() - 1 {
                        assert(segs@[i + 1] == old_segs[i + 1]);
                    }
                }
            }
            done = done + n;
        }
        proof {
            reveal(Pflash::segments_ok);
        }
        segs
    }

    /// What a valid split says of its piece `i`, of the pieces before it, and
    /// of the whole.
    pub proof fn lemma_segment(&self, segs: Seq<PageSegment>, buf_len: int, offset: int, i: int)
        requires
            self.segments_ok(segs, buf_len, offset),
            0 <= i < segs.len(),
        ensures
            segs[i].len > 0,
            segs[i].buf_offset + segs[i].len <= transfer_len(self.len() as int, offset, buf_len),
            segs[i].page == self.page_of(clamp_offset(self.len() as int, offset) + segs[i].buf_offset),
            segs[i].page_offset == self.offset_in_page(clamp_offset(self.len() as int, offset) + segs[i].buf_offset),
            segs[i].page_offset + segs[i].len <= PAGE_SIZE,
            i == 0 ==> segs[i].buf_offset == 0,
            i > 0 ==> segs[i].buf_offset == segs[i - 1].buf_offset + segs[i - 1].len,
            i == segs.len() - 1 ==> segs[i].buf_offset + segs[i].len == transfer_len(self.len() as int, offset, buf_len),
            forall|q: int| 0 <= q < i ==> (#[trigger] segs[q]).buf_offset + segs[q].len <= segs[i].buf_offset,
    {
        reveal(Pflash::segments_ok);
        assert(segs[i] == segs[i]);
        if i > 0 {
            assert(segs[i - 1] == segs[i - 1]);
        }
    }

    proof fn lemma_same_prefix(
        &self,
        a: Seq<PageSegment>,
        b: Seq<PageSegment>,
        buf_len: int,
        offset: int,
        i: int,
    )
        requires
            self.segments_ok(a, buf_len, offset),
            self.segments_ok(b, buf_len, offset),
            0 <= i < a.len(),
            i < b.len(),
        ensures
            a[i] == b[i],
        decreases i,
    {
        if i > 0 {
            self.lemma_same_prefix(a, b, buf_len, offset, i - 1);
        }
        self.lemma_segment(a, buf_len, offset, i);
        self.lemma_segment(b, buf_len, offset, i);
        reveal(Pflash::segments_ok);
        let total = transfer_len(self.len() as int, offset, buf_len);
        if i + 1 < a.len() {
            self.lemma_segment(a, buf_len, offset, i + 1);
        }
        if i + 1 < b.len() {
            self.lemma_segment(b, buf_len, offset, i + 1);
        }
        assert(a[i].len == b[i].len);
    }

    /// There is only one valid split of a transfer.
    pub proof fn lemma_segments_unique(&self, a: Seq<PageSegment>, b: Seq<PageSegment>, buf_len: int, offset: int)
        requires
            self.segments_ok(a, buf_len, offset),
            self.segments_ok(b, buf_len, offset),
        ensures
            a == b,
    {
        self.lemma_segments_empty(a, buf_len, offset);
        self.lemma_segments_empty(b, buf_len, offset);
        if a.len() > 0 && b.len() > 0 {
            let m: int = if a.len() < b.len() { a.len() as int } else { b.len() as int };
            self.lemma_same_prefix(a, b, buf_len, offset, m - 1);
            self.lemma_segment(a, buf_len, offset, m - 1);
            self.lemma_segment(b, buf_len, offset, m - 1);
            if a.len() < b.len() {
                self.lemma_segment(b, buf_len, offset, m);
            }
            if b.len() < a.len() {
                self.lemma_segment(a, buf_len, offset, m);
            }
            assert(a.len() == b.len());
            assert forall|i: int| 0 <= i < a.len() implies a[i] == b[i] by {
                self.lemma_same_prefix(a, b, buf_len, offset, i);
            }
        }
        assert(a =~= b);
    }

    /// A valid split has no piece exactly when nothing is transferred.
    pub proof fn lemma_segments_empty(&self, segs: Seq<PageSegment>, buf_len: int, offset: int)
        requires
            self.segments_ok(segs, buf_len, offset),
        ensures
            segs.len() == 0 <==> transfer_len(self.len() as int, offset, buf_len) == 0,
    {
        reveal(Pflash::segments_ok);
    }

    /// Copies into `buf` the bytes from `offset` up to the end of the page that
    /// holds it, or fewer if `buf` is shorter. `page` holds the contents of
    /// that page, mapped shared. Returns how many bytes were copied.
    pub fn read_page(&self, buf: &mut [u8], offset: usize, page: &[u8]) -> (r: usize)
        requires
            self.wf(),
            offset <= self.len(),
            page@.len() == PAGE_SIZE,
        ensures
            r == if old(buf)@.len() <= PAGE_SIZE - self.offset_in_page(offset as int) {
                old(buf)@.len() as int
            } else {
                PAGE_SIZE - self.offset_in_page(offset as int)
            },
            final(buf)@ == page@.subrange(
                self.offset_in_page(offset as int),
                self.offset_in_page(offset as int) + r,
            ) + old(buf)@.subrange(r as int, old(buf)@.len() as int),
    {
        let (_page_pa, poffs) = self.get_pa(offset);
        let room = PAGE_SIZE - poffs;
        let len = if buf.len() <= room { buf.len() } else { room };
        let mut i: usize = 0;
        while i < len
            invariant
                i <= len,
                len <= buf@.len(),
                poffs + len <= PAGE_SIZE,
                page@.len() == PAGE_SIZE,
                buf@.len() == old(buf)@.len(),
                forall|k: int| 0 <= k < i ==> buf@[k] == page@[poffs + k],
                forall|k: int| i <= k < buf@.len() ==> buf@[k] == old(buf)@[k],
            decreases len - i,
        {
            buf[i] = page[poffs + i];
            i = i + 1;
        }
        assert(buf@ =~= page@.subrange(poffs as int, poffs + len) + old(buf)@.subrange(
            len as int,
            old(buf)@.len() as int,
        ));
        len
    }

    /// The register writes that program the bytes of `buf` from device offset
    /// `offset` up to the end of its page, or fewer if `buf` is shorter.
    /// Returns how many bytes they program, and the writes.
    pub fn write_page(&self, buf: &[u8], offset: usize) -> (r: (usize, Vec<MmioWrite>))
        requires
            self.wf(),
            offset < self.len(),
        ensures
            r.0 == if buf@.len() <= PAGE_SIZE - self.offset_in_page(offset as int) {
                buf@.len() as int
            } else {
                PAGE_SIZE - self.offset_in_page(offset as int)
            },
            r.1@ == write_sequence(self.base() + offset, buf@.subrange(0, r.0 as int)),
    {
        let (page, poffs) = self.get_pa(offset);
        let room = PAGE_SIZE - poffs;
        let len = if buf.len() <= room { buf.len() } else { room };
        let start: u64 = page + poffs as u64;
        let ghost data = buf@.subrange(0, len as int);
        let mut cmds: Vec<MmioWrite> = Vec::new();
        let mut p: usize = 0;
        while p < len
            invariant
                self.wf(),
                p <= len,
                len <= buf@.len(),
                poffs < PAGE_SIZE,
                len <= PAGE_SIZE - poffs,
                page + PAGE_SIZE <= self.base() + self.len(),
                start == page + poffs,
                start == self.base() + offset,
                data == buf@.subrange(0, len as int),
                cmds@.len() == 2 * p,
                forall|k: int|
                    0 <= k < 2 * p ==> #[trigger] cmds@[k] == write_sequence(start as int, data)[k],
            decreases len - p,
        {
            cmds.push(MmioWrite { pa: start + p as u64, value: WRITE_BYTE_CMD });
            cmds.push(MmioWrite { pa: start + p as u64, value: buf[p] });
            proof {
                let k0 = 2 * p as int;
                assert(k0 / 2 == p as int);
                assert((k0 + 1) / 2 == p as int);
                assert(k0 % 2 == 0);
                assert((k0 + 1) % 2 == 1);
            }
            p = p + 1;
        }
        cmds.push(MmioWrite { pa: start + len as u64, value: READ_ARRAY_CMD });
        assert(cmds@ =~= write_sequence(start as int, data));
        (len, cmds)
    }

    /// Reads device bytes starting at `offset` into `buf`, fetching each page
    /// through `port`. The transfer stops at the end of the device; a failed
    /// fetch ends it with that error.
    #[verifier::rlimit(100)]
    pub fn read<P: FlashPort>(&self, port: &mut TracedPort<P>, buf: &mut [u8], offset: usize) -> (r: Result<
        usize,
        SvsmError,
    >)
        requires
            self.wf(),
        ensures
            final(buf)@.len() == old(buf)@.len(),
            final(port).program_log() == old(port).program_log(),
            final(port).read_log().len() >= old(port).read_log().len(),
            final(port).read_log().subrange(0, old(port).read_log().len() as int) == old(port).read_log(),
            (exists|segs: Seq<PageSegment>|
                self.segments_ok(segs, old(buf)@.len() as int, offset as int) && self.read_trace_ok(
                    segs,
                    final(port).read_log().subrange(
                        old(port).read_log().len() as int,
                        final(port).read_log().len() as int,
                    ),
                    final(buf)@,
                    r,
                )),
            r matches Ok(n) ==> n == transfer_len(self.len() as int, offset as int, old(buf)@.len() as int)
                && final(buf)@.subrange(n as int, old(buf)@.len() as int) == old(buf)@.subrange(
                n as int,
                old(buf)@.len() as int,
            ),
            transfer_len(self.len() as int, offset as int, old(buf)@.len() as int) == 0 ==> r == Ok::<
                usize,
                SvsmError,
            >(0) && final(buf)@ == old(buf)@ && final(port).read_log() == old(port).read_log(),
    {
        let ghost n0 = port.read_log().len();
        let segs = self.segments(buf.len(), offset);
        let ghost total = transfer_len(self.len() as int, offset as int, buf@.len() as int);
        let mut page: [u8; 4096] = [0u8; 4096];
        let mut bytes: usize = 0;
        let mut i: usize = 0;
        while i < segs.len()
            invariant
                self.segments_ok(segs@, old(buf)@.len() as int, offset as int),
                total == transfer_len(self.len() as int, offset as int, old(buf)@.len() as int),
                i <= segs@.len(),
                buf@.len() == old(buf)@.len(),
                port.program_log() == old(port).program_log(),
                port.read_log().len() == n0 + i,
                port.read_log().subrange(0, n0 as int) == old(port).read_log(),
                i == 0 ==> bytes == 0,
                i > 0 ==> bytes == segs@[i - 1].buf_offset + segs@[i - 1].len,
                forall|j: int| bytes <= j < buf@.len() ==> buf@[j] == old(buf)@[j],
                forall|q: int|
                    0 <= q < i ==> (#[trigger] port.read_log()[n0 + q]).pa == segs@[q].page
                        && port.read_log()[n0 + q].result is Ok,
                forall|q: int, k: int|
                    0 <= q < i && 0 <= k < segs@[q].len ==> buf@[segs@[q].buf_offset + k]
                        == #[trigger] port.read_log()[n0 + q].page@[segs@[q].page_offset + k],
            decreases segs@.len() - i,
        {
            let s = segs[i];
            proof {
                self.lemma_segment(segs@, old(buf)@.len() as int, offset as int, i as int);
            }
            let ghost before = buf@;
            let ghost log_before = port.read_log();
            let res = port.read_shared_page(s.page, &mut page);
            proof {
                assert forall|q: int| 0 <= q < n0 + i implies port.read_log()[q] == log_before[q] by {
                    assert(port.read_log().subrange(0, log_before.len() as int)[q] == log_before[q]);
                }
                assert(port.read_log().subrange(0, n0 as int) =~= old(port).read_log()) by {
                    assert forall|q: int| 0 <= q < n0 implies port.read_log()[q] == old(port).read_log()[q] by {
                        assert(log_before.subrange(0, n0 as int)[q] == old(port).read_log()[q]);
                    }
                }
            }
            match res {
                Err(e) => {
                    proof {
                        let log = port.read_log().subrange(n0 as int, port.read_log().len() as int);
                        assert(log.len() == i + 1);
                        assert forall|q: int| 0 <= q < log.len() implies (#[trigger] log[q]).pa == segs@[q].page by {
                            assert(log[q] == port.read_log()[n0 + q]);
                            if q < i {
                                assert(port.read_log()[n0 + q] == log_before[n0 + q]);
                            } else {
                                assert(port.read_log()[n0 + q] == port.read_log().last());
                            }
                        }
                        assert forall|q: int| 0 <= q < log.len() - 1 implies (#[trigger] log[q]).result is Ok by {
                            assert(log[q] == port.read_log()[n0 + q]);
                            assert(port.read_log()[n0 + q] == log_before[n0 + q]);
                        }
                        assert(self.read_trace_ok(segs@, log, buf@, Err(e)));
                    }
                    return Err(e);
                },
                Ok(()) => {},
            }
            copy_segment(buf, s, page.as_slice());
            proof {
                let lg = port.read_log();
                assert forall|j: int| s.buf_offset + s.len <= j < buf@.len() implies buf@[j] == old(buf)@[j] by {
                    assert(buf@[j] == before[j]);
                }
                assert(lg[n0 + i] == lg.last());
                assert forall|q: int| 0 <= q < i + 1 implies (#[trigger] lg[n0 + q]).pa == segs@[q].page
                    && lg[n0 + q].result is Ok by {
                    if q < i {
                        assert(lg[n0 + q] == log_before[n0 + q]);
                    }
                }
                assert forall|q: int, k: int|
                    0 <= q < i + 1 && 0 <= k < segs@[q].len implies buf@[segs@[q].buf_offset + k]
                        == #[trigger] lg[n0 + q].page@[segs@[q].page_offset + k] by {
                    if q < i {
                        assert(segs@[q].buf_offset + segs@[q].len <= s.buf_offset);
                        assert(buf@[segs@[q].buf_offset + k] == before[segs@[q].buf_offset + k]);
                        assert(lg[n0 + q] == log_before[n0 + q]);
                    } else {
                        assert(buf@[s.buf_offset + k] == page@[s.page_offset + k]);
                    }
                }
            }
            bytes = s.buf_offset + s.len;
            i = i + 1;
        }
        proof {
            self.lemma_segments_empty(segs@, old(buf)@.len() as int, offset as int);
            if segs@.len() > 0 {
                self.lemma_segment(segs@, old(buf)@.len() as int, offset as int, segs@.len() - 1);
            }
            let log = port.read_log().subrange(n0 as int, port.read_log().len() as int);
            assert forall|q: int| 0 <= q < log.len() implies (#[trigger] log[q]).pa == segs@[q].page
                && log[q].result is Ok by {
                assert(log[q] == port.read_log()[n0 + q]);
            }
            assert forall|q: int, k: int|
                0 <= q < segs@.len() && 0 <= k < segs@[q].len implies buf@[segs@[q].buf_offset + k]
                    == #[trigger] log[q].page@[segs@[q].page_offset + k] by {
                assert(log[q] == port.read_log()[n0 + q]);
            }
            assert(self.read_trace_ok(segs@, log, buf@, Ok(bytes)));
            assert(buf@.subrange(bytes as int, buf@.len() as int) =~= old(buf)@.subrange(
                bytes as int,
                old(buf)@.len() as int,
            ));
            if total == 0 {
                assert(buf@ =~= old(buf)@);
                assert(port.read_log() =~= old(port).read_log());
            }
        }
        Ok(bytes)
    }

    /// Writes `buf` to the device starting at `offset`, page by page: for
    /// each page the register writes of `write_page` go through `port`. The
    /// transfer stops at the end of the device; a failed page ends it with
    /// that error.
    #[verifier::rlimit(100)]
    pub fn write<P: FlashPort>(&self, port: &mut TracedPort<P>, buf: &[u8], offset: usize) -> (r: Result<
        usize,
        SvsmError,
    >)
        requires
            self.wf(),
        ensures
            final(port).read_log() == old(port).read_log(),
            final(port).program_log().len() >= old(port).program_log().len(),
            final(port).program_log().subrange(0, old(port).program_log().len() as int) == old(
                port,
            ).program_log(),
            (exists|segs: Seq<PageSegment>|
                self.segments_ok(segs, buf@.len() as int, offset as int) && self.write_trace_ok(
                    segs,
                    final(port).program_log().subrange(
                        old(port).program_log().len() as int,
                        final(port).program_log().len() as int,
                    ),
                    buf@,
                    offset as int,
                    r,
                )),
            r matches Ok(n) ==> n == transfer_len(self.len() as int, offset as int, buf@.len() as int),
            transfer_len(self.len() as int, offset as int, buf@.len() as int) == 0 ==> r == Ok::<
                usize,
                SvsmError,
            >(0) && final(port).program_log() == old(port).program_log(),
    {
        let ghost n0 = port.program_log().len();
        let segs = self.segments(buf.len(), offset);
        let size = self.size;
        let start = if offset < size { offset } else { size };
        let mut bytes: usize = 0;
        let mut i: usize = 0;
        while i < segs.len()
            invariant
                self.wf(),
                size == self.len(),
                start == clamp_offset(size as int, offset as int),
                self.segments_ok(segs@, buf@.len() as int, offset as int),
                i <= segs@.len(),
                port.read_log() == old(port).read_log(),
                port.program_log().len() == n0 + i,
                port.program_log().subrange(0, n0 as int) == old(port).program_log(),
                i == 0 ==> bytes == 0,
                i > 0 ==> bytes == segs@[i - 1].buf_offset + segs@[i - 1].len,
                forall|q: int|
                    0 <= q < i ==> (#[trigger] port.program_log()[n0 + q]).pa == segs@[q].page
                        && port.program_log()[n0 + q].result is Ok && port.program_log()[n0 + q].cmds@
                        == write_sequence(
                        self.base() + start + segs@[q].buf_offset,
                        buf@.subrange(segs@[q].buf_offset as int, segs@[q].buf_offset + segs@[q].len),
                    ),
            decreases segs@.len() - i,
        {
            let s = segs[i];
            proof {
                self.lemma_segment(segs@, buf@.len() as int, offset as int, i as int);
            }
            let part = vstd::slice::slice_subrange(buf, s.buf_offset, s.buf_offset + s.len);
            let (n, cmds) = self.write_page(part, start + s.buf_offset);
            proof {
                assert(n == s.len);
                assert(part@.subrange(0, n as int) =~= part@);
            }
            let ghost log_before = port.program_log();
            let res = port.program_page(s.page, cmds);
            proof {
                assert forall|q: int| 0 <= q < n0 + i implies port.program_log()[q] == log_before[q] by {
                    assert(port.program_log().subrange(0, log_before.len() as int)[q] == log_before[q]);
                }
                assert(port.program_log().subrange(0, n0 as int) =~= old(port).program_log()) by {
                    assert forall|q: int| 0 <= q < n0 implies port.program_log()[q] == old(port).program_log()[q] by {
                        assert(log_before.subrange(0, n0 as int)[q] == old(port).program_log()[q]);
                    }
                }
            }
            match res {
                Err(e) => {
                    proof {
                        let log = port.program_log().subrange(n0 as int, port.program_log().len() as int);
                        assert forall|q: int| 0 <= q < log.len() implies (#[trigger] log[q]).pa == segs@[q].page
                            && log[q].cmds@ == write_sequence(
                            self.base() + start + segs@[q].buf_offset,
                            buf@.subrange(segs@[q].buf_offset as int, segs@[q].buf_offset + segs@[q].len),
                        ) by {
                            assert(log[q] == port.program_log()[n0 + q]);
                            if q < i {
                                assert(port.program_log()[n0 + q] == log_before[n0 + q]);
                            } else {
                                assert(port.program_log()[n0 + q] == port.program_log().last());
                            }
                        }
                        assert forall|q: int| 0 <= q < log.len() - 1 implies (#[trigger] log[q]).result is Ok by {
                            assert(log[q] == port.program_log()[n0 + q]);
                            assert(port.program_log()[n0 + q] == log_before[n0 + q]);
                        }
                        assert(self.write_trace_ok(segs@, log, buf@, offset as int, Err(e)));
                    }
                    return Err(e);
                },
                Ok(()) => {},
            }
            proof {
                let lg = port.program_log();
                assert(lg[n0 + i] == lg.last());
                assert forall|q: int| 0 <= q < i + 1 implies (#[trigger] lg[n0 + q]).pa == segs@[q].page
                    && lg[n0 + q].result is Ok && lg[n0 + q].cmds@ == write_sequence(
                    self.base() + start + segs@[q].buf_offset,
                    buf@.subrange(segs@[q].buf_offset as int, segs@[q].buf_offset + segs@[q].len),
                ) by {
                    if q < i {
                        assert(lg[n0 + q] == log_before[n0 + q]);
                    }
                }
            }
            bytes = s.buf_offset + n;
            i = i + 1;
        }
        proof {
            self.lemma_segments_empty(segs@, buf@.len() as int, offset as int);
            if segs@.len() > 0 {
                self.lemma_segment(segs@, buf@.len() as int, offset as int, segs@.len() - 1);
            }
            let log = port.program_log().subrange(n0 as int, port.program_log().len() as int);
            assert forall|q: int| 0 <= q < log.len() implies (#[trigger] log[q]).pa == segs@[q].page
                && log[q].result is Ok && log[q].cmds@ == write_sequence(
                self.base() + start + segs@[q].buf_offset,
                buf@.subrange(segs@[q].buf_offset as int, segs@[q].buf_offset + segs@[q].len),
            ) by {
                assert(log[q] == port.program_log()[n0 + q]);
            }
            assert(self.write_trace_ok(segs@, log, buf@, offset as int, Ok(bytes)));
            if segs@.len() == 0 {
                assert(port.program_log() =~= old(port).program_log());
            }
        }
        Ok(bytes)
    }

    /// Size of the device in bytes.
    pub fn size(&self) -> (r: usize)
        ensures
            r == self.len(),
    {
        self.size
    }
}

} // verus!

use vstd::prelude::*;

use crate::error::SvsmError;

verus! {

/// Number of bytes a copy of up to `len` bytes at `offset` moves in a buffer
/// of `size` bytes.
pub open spec fn copy_len(size: int, offset: int, len: int) -> int {
    if len <= size - offset {
        len
    } else {
        size - offset
    }
}

/// A source or destination of bytes that file operations copy through.
pub trait Buffer {
    /// The bytes the buffer represents.
    spec fn bytes(&self) -> Seq<u8>;

    /// Copies bytes of the buffer starting at `offset` into `buf`, as many as
    /// fit, and returns how many were copied.
    fn read_buffer(&self, buf: &mut [u8], offset: usize) -> (r: Result<usize, SvsmError>)
        requires
            offset <= self.bytes().len(),
        ensures
            final(buf)@.len() == old(buf)@.len(),
            r matches Ok(n) ==> n == copy_len(
                self.bytes().len() as int,
                offset as int,
                old(buf)@.len() as int,
            ) && final(buf)@ == self.bytes().subrange(offset as int, offset + n) + old(buf)@.subrange(
                n as int,
                old(buf)@.len() as int,
            ),
    ;

    /// Copies `buf` into the buffer starting at `offset`, as much as fits, and
    /// returns how many bytes were copied. Buffers that cannot be written
    /// report `SvsmError::NotSupported`.
    fn write_buffer(&mut self, buf: &[u8], offset: usize) -> (r: Result<usize, SvsmError>)
        requires
            offset <= old(self).bytes().len(),
        ensures
            final(self).bytes().len() == old(self).bytes().len(),
            r matches Ok(n) ==> n == copy_len(old(self).bytes().len() as int, offset as int, buf@.len() as int)
                && final(self).bytes() == old(self).bytes().subrange(0, offset as int) + buf@.subrange(0, n as int)
                + old(self).bytes().subrange(offset + n, old(self).bytes().len() as int),
            r is Err ==> final(self).bytes() == old(self).bytes(),
    {
        Err(SvsmError::NotSupported)
    }

    /// Total number of bytes the buffer represents.
    fn size(&self) -> (r: usize)
        ensures
            r == self.bytes().len(),
    ;
}

/// Copies `src[offset..offset + n]` into the start of `dst`, with `n` as large
/// as both allow.
fn copy_out(src: &[u8], dst: &mut [u8], offset: usize) -> (n: usize)
    requires
        offset <= src@.len(),
    ensures
        n == copy_len(src@.len() as int, offset as int, old(dst)@.len() as int),
        final(dst)@ == src@.subrange(offset as int, offset + n) + old(dst)@.subrange(
            n as int,
            old(dst)@.len() as int,
        ),
{
    let n = if dst.len() <= src.len() - offset { dst.len() } else { src.len() - offset };
    let mut i: usize = 0;
    while i < n
        invariant
            i <= n,
            n <= dst@.len(),
            offset + n <= src.len(),
            dst@.len() == old(dst)@.len(),
            forall|k: int| 0 <= k < i ==> dst@[k] == src@[offset + k],
            forall|k: int| i <= k < dst@.len() ==> dst@[k] == old(dst)@[k],
        decreases n - i,
    {
        dst[i] = src[offset + i];
        i = i + 1;
    }
    assert(dst@ =~= src@.subrange(offset as int, offset + n) + old(dst)@.subrange(
        n as int,
        old(dst)@.len() as int,
    ));
    n
}

/// A [`Buffer`] over a mutable byte slice.
#[derive(Debug)]
pub struct SliceMutRefBuffer<'a> {
    slice: &'a mut [u8],
}

impl<'a> SliceMutRefBuffer<'a> {
    pub fn new(slice: &'a mut [u8]) -> (r: Self)
        ensures
            r.bytes() == old(slice)@,
    {
        Self { slice }
    }
}

impl<'a> Buffer for SliceMutRefBuffer<'a> {
    closed spec fn bytes(&self) -> Seq<u8> {
        self.slice@
    }

    fn read_buffer(&self, buf: &mut [u8], offset: usize) -> (r: Result<usize, SvsmError>)
        ensures
            r is Ok,
    {
        Ok(copy_out(self.slice, buf, offset))
    }

    fn write_buffer(&mut self, buf: &[u8], offset: usize) -> (r: Result<usize, SvsmError>)
        ensures
            r is Ok,
    {
        let n = if buf.len() <= self.slice.len() - offset { buf.len() } else { self.slice.len() - offset };
        let mut i: usize = 0;
        while i < n
            invariant
                i <= n,
                n <= buf@.len(),
                offset + n <= self.slice.len(),
                self.slice@.len() == old(self).slice@.len(),
                forall|k: int| 0 <= k < offset ==> self.slice@[k] == old(self).slice@[k],
                forall|k: int| 0 <= k < i ==> self.slice@[offset + k] == buf@[k],
                forall|k: int| offset + i <= k < self.slice@.len() ==> self.slice@[k] == old(self).slice@[k],
            decreases n - i,
        {
            self.slice[offset + i] = buf[i];
            i = i + 1;
        }
        assert(self.slice@ =~= old(self).slice@.subrange(0, offset as int) + buf@.subrange(0, n as int)
            + old(self).slice@.subrange(offset + n, old(self).slice@.len() as int));
        Ok(n)
    }

    fn size(&self) -> (r: usize) {
        self.slice.len()
    }
}

/// A [`Buffer`] over a byte slice; it cannot be written.
#[derive(Debug)]
pub struct SliceRefBuffer<'a> {
    slice: &'a [u8],
}

impl<'a> SliceRefBuffer<'a> {
    pub fn new(slice: &'a [u8]) -> (r: Self)
        ensures
            r.bytes() == slice@,
    {
        Self { slice }
    }
}

impl<'a> Buffer for SliceRefBuffer<'a> {
    closed spec fn bytes(&self) -> Seq<u8> {
        self.slice@
    }

    fn read_buffer(&self, buf: &mut [u8], offset: usize) -> (r: Result<usize, SvsmError>)
        ensures
            r is Ok,
    {
        Ok(copy_out(self.slice, buf, offset))
    }

    fn size(&self) -> (r: usize) {
        self.slice.len()
    }
}

/// A range of user memory: `size` bytes at virtual address `addr`. The bytes
/// themselves are copied by the platform's user-copy primitives; this type
/// decides how many.
#[derive(Debug, Clone, Copy, PartialEq, Eq, Structural)]
pub struct UserBuffer {
    addr: u64,
    size: usize,
}

impl UserBuffer {
    pub closed spec fn start(&self) -> u64 {
        self.addr
    }

    pub closed spec fn len(&self) -> nat {
        self.size as nat
    }

    pub fn new(addr: u64, size: usize) -> (r: Self)
        ensures
            r.start() == addr,
            r.len() == size,
    {
        Self { addr, size }
    }

    /// Number of bytes a copy between this range from `offset` on and a slice
    /// of `buf_len` bytes moves.
    pub fn copy_size(&self, buf_len: usize, offset: usize) -> (r: usize)
        requires
            offset <= self.len(),
        ensures
            r == copy_len(self.len() as int, offset as int, buf_len as int),
    {
        let room = self.size - offset;
        if buf_len <= room { buf_len } else { room }
    }

    /// Virtual address of the range.
    pub fn addr(&self) -> (r: u64)
        ensures
            r == self.start(),
    {
        self.addr
    }

    /// Virtual address of byte `offset` of the range.
    pub fn addr_at(&self, offset: usize) -> (r: u64)
        requires
            offset <= self.len(),
            self.start() + offset <= u64::MAX,
        ensures
            r == self.start() + offset,
    {
        self.addr + offset as u64
    }

    /// Total number of bytes in the range.
    pub fn size(&self) -> (r: usize)
        ensures
            r == self.len(),
    {
        self.size
    }
}

} // verus!

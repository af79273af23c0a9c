use vstd::prelude::*;

use crate::error::SvsmError;

verus! {

/// Number of bytes a transfer of `len` bytes at `offset` moves on a device of
/// `size` bytes: nothing past the end, and a short transfer at the tail.
pub open spec fn transfer_len(size: int, offset: int, len: int) -> int {
    if offset >= size {
        0
    } else if len <= size - offset {
        len
    } else {
        size - offset
    }
}

/// Position a transfer starts at: the offset, or the end of the device when the
/// offset lies beyond it.
pub open spec fn clamp_offset(size: int, offset: int) -> int {
    if offset <= size {
        offset
    } else {
        size
    }
}

/// The destination buffer after a read of `buf.len()` bytes at `offset`.
pub open spec fn read_result(contents: Seq<u8>, buf: Seq<u8>, offset: int) -> Seq<u8> {
    let pos = clamp_offset(contents.len() as int, offset);
    let n = transfer_len(contents.len() as int, offset, buf.len() as int);
    contents.subrange(pos, pos + n) + buf.subrange(n, buf.len() as int)
}

/// The device contents after a write of `data` at `offset`.
pub open spec fn write_result(contents: Seq<u8>, data: Seq<u8>, offset: int) -> Seq<u8> {
    let pos = clamp_offset(contents.len() as int, offset);
    let n = transfer_len(contents.len() as int, offset, data.len() as int);
    contents.subrange(0, pos) + data.subrange(0, n) + contents.subrange(pos + n, contents.len() as int)
}

/// A byte-addressed storage device. Transfers never fail because of their
/// range: they stop at the end of the device and report how much was moved.
pub trait BlockDev {
    /// The bytes stored on the device.
    spec fn contents(&self) -> Seq<u8>;

    /// Copies device bytes starting at `offset` into `buf`.
    fn read(&self, buf: &mut [u8], offset: usize) -> (r: Result<usize, SvsmError>)
        ensures
            final(buf)@.len() == old(buf)@.len(),
            r matches Ok(n) ==> n == transfer_len(
                self.contents().len() as int,
                offset as int,
                old(buf)@.len() as int,
            ) && final(buf)@ == read_result(self.contents(), old(buf)@, offset as int),
    ;

    /// Stores `buf` on the device starting at `offset`.
    fn write(&mut self, buf: &[u8], offset: usize) -> (r: Result<usize, SvsmError>)
        ensures
            final(self).contents().len() == old(self).contents().len(),
            r matches Ok(n) ==> n == transfer_len(
                old(self).contents().len() as int,
                offset as int,
                buf@.len() as int,
            ) && final(self).contents() == write_result(old(self).contents(), buf@, offset as int),
    ;

    /// Total number of bytes on the device.
    fn size(&self) -> (r: usize)
        ensures
            r == self.contents().len(),
    ;
}

/// A transfer that starts at or past the end of a device moves nothing and
/// leaves both the device and the destination buffer as they were.
pub proof fn lemma_transfer_past_end(contents: Seq<u8>, buf: Seq<u8>, offset: int)
    requires
        offset >= contents.len(),
    ensures
        transfer_len(contents.len() as int, offset, buf.len() as int) == 0,
        read_result(contents, buf, offset) == buf,
        write_result(contents, buf, offset) == contents,
{
    assert(read_result(contents, buf, offset) =~= buf);
    assert(write_result(contents, buf, offset) =~= contents);
}

/// A transfer that starts inside a device but runs past its end moves exactly
/// the bytes between the offset and the end.
pub proof fn lemma_short_transfer(size: int, offset: int, len: int)
    requires
        0 <= offset < size,
        offset + len > size,
    ensures
        transfer_len(size, offset, len) == size - offset,
{
}

/// Writing bytes inside the device and reading the same range back yields the
/// bytes written.
pub proof fn lemma_write_then_read(contents: Seq<u8>, data: Seq<u8>, buf: Seq<u8>, offset: int)
    requires
        0 <= offset,
        offset + data.len() <= contents.len(),
        buf.len() == data.len(),
    ensures
        write_result(contents, data, offset).len() == contents.len(),
        transfer_len(contents.len() as int, offset, data.len() as int) == data.len(),
        read_result(write_result(contents, data, offset), buf, offset) == data,
{
    let after = write_result(contents, data, offset);
    assert(after.len() == contents.len());
    assert(read_result(after, buf, offset) =~= data);
}

} // verus!

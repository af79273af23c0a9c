use vstd::prelude::*;

use crate::block::api::{read_result, transfer_len, write_result, BlockDev};
use crate::error::SvsmError;

verus! {

/// Errors of the byte-stream view of a block device.
#[derive(Debug, PartialEq, Eq, Copy, Clone, Structural)]
pub enum WIoError {
    /// The operation was interrupted and may be retried.
    Intr,
    /// The stream ended before the expected data.
    Unex,
    /// A write stored no byte.
    Wzero,
    /// Any other failure.
    General,
}

impl WIoError {
    /// Whether retrying the operation may succeed.
    pub fn is_interrupted(&self) -> (r: bool)
        ensures
            r == (*self == WIoError::Intr),
    {
        *self == WIoError::Intr
    }

    pub fn new_unexpected_eof_error() -> (r: Self)
        ensures
            r == WIoError::Unex,
    {
        WIoError::Unex
    }

    pub fn new_write_zero_error() -> (r: Self)
        ensures
            r == WIoError::Wzero,
    {
        WIoError::Wzero
    }
}

/// Where a seek is measured from.
#[derive(Debug, Clone, Copy, PartialEq, Eq, Structural)]
pub enum SeekFrom {
    Start(u64),
    End(i64),
    Current(i64),
}

/// The position a seek aims at on a device of `size` bytes from position
/// `pos`, before it is checked against the device.
pub open spec fn seek_target(size: int, pos: int, from: SeekFrom) -> int {
    match from {
        SeekFrom::Start(n) => n as int,
        SeekFrom::End(n) => size + n,
        SeekFrom::Current(n) => pos + n,
    }
}

/// A byte stream with a cursor over a block device, as a filesystem reads and
/// writes it.
#[derive(Debug)]
pub struct Wrap<'a, T: BlockDev> {
    dev: &'a mut T,
    offset: usize,
}

impl<'a, T: BlockDev> Wrap<'a, T> {
    /// Position of the cursor.
    pub closed spec fn pos(&self) -> nat {
        self.offset as nat
    }

    /// Contents of the device.
    pub closed spec fn device(&self) -> Seq<u8> {
        self.dev.contents()
    }

    /// A stream over `dev` with its cursor at the start.
    pub fn new(dev: &'a mut T) -> (r: Self)
        ensures
            r.pos() == 0,
            r.device() == old(dev).contents(),
    {
        Wrap { dev, offset: 0 }
    }

    fn seek_from_start(&mut self, pos: usize) -> (r: Result<u64, WIoError>)
        ensures
            final(self).device() == old(self).device(),
            pos < old(self).device().len() ==> r == Ok::<u64, WIoError>(pos as u64) && final(self).pos() == pos,
            pos >= old(self).device().len() ==> r == Err::<u64, WIoError>(WIoError::General) && final(self).pos()
                == old(self).pos(),
    {
        if pos < self.dev.size() {
            self.offset = pos;
            Ok(pos as u64)
        } else {
            Err(WIoError::General)
        }
    }

    /// Moves the cursor past the `n` bytes a device transfer reports as
    /// `Ok(n)`; a failed transfer leaves the cursor and becomes
    /// `WIoError::General`.
    pub fn advance(&mut self, res: Result<usize, SvsmError>) -> (r: Result<usize, WIoError>)
        requires
            res matches Ok(n) ==> old(self).pos() + n <= usize::MAX,
        ensures
            final(self).device() == old(self).device(),
            res matches Ok(n) ==> r == Ok::<usize, WIoError>(n) && final(self).pos() == old(self).pos() + n,
            res is Err ==> r == Err::<usize, WIoError>(WIoError::General) && final(self).pos() == old(self).pos(),
    {
        match res {
            Ok(n) => {
                self.offset = self.offset + n;
                Ok(n)
            },
            Err(_) => Err(WIoError::General),
        }
    }

    /// Reads from the cursor into `buf` and moves the cursor past the bytes
    /// read. A failure of the device is reported as `WIoError::General`.
    pub fn read(&mut self, buf: &mut [u8]) -> (r: Result<usize, WIoError>)
        ensures
            final(self).device() == old(self).device(),
            final(buf)@.len() == old(buf)@.len(),
            r matches Ok(n) ==> n == transfer_len(
                old(self).device().len() as int,
                old(self).pos() as int,
                old(buf)@.len() as int,
            ) && final(buf)@ == read_result(old(self).device(), old(buf)@, old(self).pos() as int)
                && final(self).pos() == old(self).pos() + n,
            r matches Err(e) ==> e == WIoError::General && final(self).pos() == old(self).pos(),
    {
        // The device size bounds the cursor's advance.
        let _size = self.dev.size();
        let res = self.dev.read(buf, self.offset);
        self.advance(res)
    }

    /// Writes `buf` at the cursor and moves the cursor past the bytes written.
    /// A failure of the device is reported as `WIoError::General`.
    pub fn write(&mut self, buf: &[u8]) -> (r: Result<usize, WIoError>)
        ensures
            final(self).device().len() == old(self).device().len(),
            r matches Ok(n) ==> n == transfer_len(
                old(self).device().len() as int,
                old(self).pos() as int,
                buf@.len() as int,
            ) && final(self).device() == write_result(old(self).device(), buf@, old(self).pos() as int)
                && final(self).pos() == old(self).pos() + n,
            r matches Err(e) ==> e == WIoError::General && final(self).pos() == old(self).pos(),
    {
        // The device size bounds the cursor's advance.
        let _size = self.dev.size();
        let res = self.dev.write(buf, self.offset);
        self.advance(res)
    }

    /// Nothing is buffered, so there is nothing to flush.
    pub fn flush(&mut self) -> (r: Result<(), WIoError>)
        ensures
            r is Ok,
            final(self).device() == old(self).device(),
            final(self).pos() == old(self).pos(),
    {
        Ok(())
    }

    /// Moves the cursor. A target before the start, at the end or past the end
    /// of the device is refused with `WIoError::General` and the cursor stays.
    pub fn seek(&mut self, pos: SeekFrom) -> (r: Result<u64, WIoError>)
        ensures
            final(self).device() == old(self).device(),
            ({
                let t = seek_target(old(self).device().len() as int, old(self).pos() as int, pos);
                &&& 0 <= t < old(self).device().len() ==> r == Ok::<u64, WIoError>(t as u64)
                    && final(self).pos() == t
                &&& !(0 <= t < old(self).device().len()) ==> r == Err::<u64, WIoError>(WIoError::General)
                    && final(self).pos() == old(self).pos()
            }),
    {
        let size = self.dev.size();
        let target: i128 = match pos {
            SeekFrom::Start(n) => n as i128,
            SeekFrom::End(n) => size as i128 + n as i128,
            SeekFrom::Current(n) => self.offset as i128 + n as i128,
        };
        if target < 0 || target >= size as i128 {
            Err(WIoError::General)
        } else {
            self.seek_from_start(target as usize)
        }
    }
}

} // verus!

use vstd::prelude::*;

use crate::block::api::{clamp_offset, read_result, transfer_len, write_result, BlockDev};
use crate::error::SvsmError;
use crate::mem::zeroed;

verus! {

/// A block device backed by guest memory.
#[derive(Debug)]
pub struct RamDisk {
    data: Vec<u8>,
}

impl RamDisk {
    /// A device of `size` zero bytes.
    pub fn new(size: usize) -> (r: Self)
        ensures
            r.contents() == Seq::new(size as nat, |i: int| 0u8),
    {
        RamDisk { data: zeroed(size) }
    }

    /// A device holding a copy of `content`.
    pub fn from_content(content: &Vec<u8>) -> (r: Self)
        ensures
            r.contents() == content@,
    {
        RamDisk { data: content.clone() }
    }
}

impl BlockDev for RamDisk {
    closed spec fn contents(&self) -> Seq<u8> {
        self.data@
    }

    fn read(&self, buf: &mut [u8], offset: usize) -> (r: Result<usize, SvsmError>)
        ensures
            r is Ok,
    {
        let size = self.data.len();
        let pos = if offset < size { offset } else { size };
        let len = if buf.len() < size - pos { buf.len() } else { size - pos };
        let mut i: usize = 0;
        while i < len
            invariant
                i <= len,
                len <= buf@.len(),
                pos + len <= size,
                size == self.data@.len(),
                buf@.len() == old(buf)@.len(),
                forall|k: int| 0 <= k < i ==> buf@[k] == self.data@[pos + k],
                forall|k: int| i <= k < buf@.len() ==> buf@[k] == old(buf)@[k],
            decreases len - i,
        {
            buf[i] = self.data[pos + i];
            i = i + 1;
        }
        assert(len == transfer_len(size as int, offset as int, old(buf)@.len() as int));
        assert(pos == clamp_offset(size as int, offset as int));
        assert(buf@ =~= read_result(self.data@, old(buf)@, offset as int));
        Ok(len)
    }

    fn write(&mut self, buf: &[u8], offset: usize) -> (r: Result<usize, SvsmError>)
        ensures
            r is Ok,
    {
        let size = self.data.len();
        let pos = if offset < size { offset } else { size };
        let len = if buf.len() < size - pos { buf.len() } else { size - pos };
        let mut i: usize = 0;
        while i < len
            invariant
                i <= len,
                len <= buf@.len(),
                pos + len <= size,
                size == old(self).data@.len(),
                self.data@.len() == size,
                forall|k: int| 0 <= k < pos ==> self.data@[k] == old(self).data@[k],
                forall|k: int| 0 <= k < i ==> self.data@[pos + k] == buf@[k],
                forall|k: int| pos + i <= k < size ==> self.data@[k] == old(self).data@[k],
            decreases len - i,
        {
            self.data.set(pos + i, buf[i]);
            i = i + 1;
        }
        assert(len == transfer_len(size as int, offset as int, buf@.len() as int));
        assert(pos == clamp_offset(size as int, offset as int));
        assert(self.data@ =~= write_result(old(self).data@, buf@, offset as int));
        Ok(len)
    }

    fn size(&self) -> (r: usize)
    {
        self.data.len()
    }
}

} // verus!

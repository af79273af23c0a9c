use vstd::prelude::*;

use crate::block::error::BlockDeviceError;
use crate::error::SvsmError;

verus! {

#[verifier::external_type_specification]
#[verifier::external_body]
pub struct ExVirtioError(virtio_drivers::Error);

/// Relies on `virtio_drivers::device::blk::SECTOR_SIZE`, the size of one
/// sector of a VirtIO block device, documented as 512 bytes.
#[verifier::external_body]
fn sector_size() -> (r: usize)
    ensures
        r == 512,
{
    virtio_drivers::device::blk::SECTOR_SIZE
}

/// Whether `v` is `512 / 2^k`.
pub open spec fn halved(v: int, k: int) -> bool {
    ||| v == 512 && k == 0
    ||| v == 256 && k == 1
    ||| v == 128 && k == 2
    ||| v == 64 && k == 3
    ||| v == 32 && k == 4
    ||| v == 16 && k == 5
    ||| v == 8 && k == 6
    ||| v == 4 && k == 7
    ||| v == 2 && k == 8
    ||| v == 1 && k == 9
}

/// Base-2 logarithm of the sector size of a VirtIO block device.
pub fn block_size_log2() -> (r: u8)
    ensures
        r == 9,
{
    let mut v: usize = sector_size();
    let mut k: u8 = 0;
    while v > 1
        invariant
            halved(v as int, k as int),
        decreases v,
    {
        v = v / 2;
        k = k + 1;
    }
    k
}

/// Size in bytes of a device of `capacity` sectors, or nothing if it does not
/// fit in a `usize`.
pub fn disk_size(capacity: u64) -> (r: Option<usize>)
    ensures
        capacity * 512 <= usize::MAX ==> r == Some((capacity * 512) as usize),
        capacity * 512 > usize::MAX ==> r is None,
{
    let sector = sector_size();
    if capacity > (usize::MAX / sector) as u64 {
        None
    } else {
        let c = capacity as usize;
        Some(c * sector)
    }
}

/// Byte offset of sector `block_id`, or nothing if it does not fit in a
/// `usize`.
pub fn block_offset(block_id: usize) -> (r: Option<usize>)
    ensures
        block_id * 512 <= usize::MAX ==> r == Some((block_id * 512) as usize),
        block_id * 512 > usize::MAX ==> r is None,
{
    let sector = sector_size();
    if block_id > usize::MAX / sector {
        None
    } else {
        Some(block_id * sector)
    }
}

/// The result of a transfer of the VirtIO transport, with any of its errors
/// reported as a failed block device.
pub fn transport_result(r: Result<(), virtio_drivers::Error>) -> (out: Result<(), SvsmError>)
    ensures
        r is Ok ==> out is Ok,
        r is Err ==> out == Err::<(), SvsmError>(SvsmError::Block(BlockDeviceError::Failed)),
{
    match r {
        Ok(()) => Ok(()),
        Err(_) => Err(SvsmError::Block(BlockDeviceError::Failed)),
    }
}

} // verus!

use vstd::prelude::*;

pub use crate::block::error::BlockDeviceError;

verus! {

/// Errors of the service layer.
#[derive(Debug, Clone, Copy, PartialEq, Eq, Structural)]
pub enum SvsmError {
    /// A block device or its transport failed.
    Block(BlockDeviceError),
    /// The operation is not supported by this object.
    NotSupported,
    /// No shared memory is left to hand out.
    OutOfMemory,
}

} // verus!

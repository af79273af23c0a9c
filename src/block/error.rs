use vstd::prelude::*;

verus! {

/// Failure of a block device or of the transport below it.
#[derive(Debug, Clone, Copy, PartialEq, Eq, Structural)]
pub enum BlockDeviceError {
    Failed,
}

} // verus!

//! Confidential shared-memory subsystem and block devices of a guest service
//! layer running inside a memory-encrypted virtual machine.
pub mod block;
pub mod error;
pub mod fs;
pub mod mem;
pub mod registry;
pub mod virtio;

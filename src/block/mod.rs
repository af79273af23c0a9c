pub mod api;
pub mod error;
pub mod fat;
pub mod pflash;
pub mod ramdisk;
pub mod virtio_blk;

pub use api::BlockDev;
pub use error::BlockDeviceError;

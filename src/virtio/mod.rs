pub mod hal;

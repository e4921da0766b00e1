pub mod error;
pub mod frame;
pub mod hexdump;
pub mod reassembly;
pub mod relay;
pub mod rewrite;
pub mod session;
pub mod supervisor;
pub mod usb_id;

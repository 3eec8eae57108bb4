pub mod hidpp;
pub mod transport;
pub mod features;
pub mod device;

pub mod battery;
pub mod dpi;

pub mod hid;
pub mod strings;
pub mod app;

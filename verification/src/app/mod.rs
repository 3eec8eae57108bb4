pub mod battery_alert;
pub mod controls;
pub mod settings;
pub mod slider;
pub mod startup;
pub mod text;
pub mod worker;
pub mod state;

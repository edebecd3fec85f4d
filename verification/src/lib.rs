pub mod addons;
pub mod analysis;
pub mod error;
pub mod presets;
pub mod report;
pub mod time;

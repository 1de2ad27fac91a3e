//! Personal exercise tracker: daily push-up, sit-up and pull-up counts keyed by
//! calendar date.
pub mod calendar;
pub mod commands;
pub mod config;
pub mod error;
pub mod personal;

pub use config::AppConfig;
pub use error::AppError;
pub use personal::Tracker;

pub mod backup;
pub mod clock;
pub mod config;
pub mod datetime;
pub mod laws;
pub mod metrics;
pub mod parser;
pub mod persistence;
pub mod platform;
pub mod processing;
pub mod serialize;
pub mod service;
pub mod simulator;
pub mod telemetry;
pub mod text;

pub use config::{AppConfig, ServiceMode, SplitMode};
pub use service::Service;

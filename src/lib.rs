//! Single-host resource monitoring: per-domain samplers that turn raw
//! operating-system readings into typed metrics, and an anomaly detector that
//! compares each snapshot with the one before it.
//!
//! Decimal quantities are fixed-point integers in thousandths: a percentage of
//! `75_000` is 75 %, a temperature of `88_000` is 88 °C, a load average of
//! `1_500` is 1.5.

pub mod types;
mod clock;
pub mod analyzer;
pub mod text;
pub mod rules;
pub mod state;
pub mod network;
pub mod disk;
pub mod memory;
pub mod cpu;
pub mod temperature;
pub mod usb;
pub mod gpu;
pub mod collector;
pub mod config;
pub mod models;
pub mod view;

//! Rows of the durable store.
use vstd::prelude::*;

verus! {

/// A stored anomaly; times are text and `metrics` is its payload as JSON.
#[derive(Debug, Clone)]
pub struct AnomalyRow {
    pub id: i64,
    pub timestamp: String,
    pub severity: String,
    pub category: String,
    pub message: String,
    pub metrics: String,
    pub created_at: String,
}

/// A stored setting.
#[derive(Debug, Clone)]
pub struct ConfigRow {
    pub key: String,
    pub value: String,
    pub updated_at: String,
}

/// A setting to insert or update.
#[derive(Debug, Clone)]
pub struct NewConfig {
    pub key: String,
    pub value: String,
}

} // verus!

//! What runs beside the engine.

pub mod retention_policy_job;

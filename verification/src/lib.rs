//! Verified logic of an agent harness.
pub mod alarm;
pub mod alarm_laws;
pub mod alarms;
pub mod bridge;
pub mod bridge_laws;
pub mod calendar;
pub mod claim_laws;
pub mod delay_laws;
pub mod hook_laws;
pub mod hook_summary;
pub mod keyed;
pub mod llamacpp;
pub mod loop_laws;
pub mod loop_scheduler;
pub mod number;
pub mod order;
pub mod pending;
pub mod prompt;
pub mod prompt_laws;
pub mod recurrence;
pub mod rule_laws;
pub mod schedule_laws;
pub mod server_laws;
pub mod sidecar;
pub mod sidecar_laws;
pub mod tagged;
pub mod text;
pub mod text_laws;
pub mod timing;
pub mod timing_laws;
pub mod tools;
pub mod trigger;
pub mod uuid_text;
pub mod words;

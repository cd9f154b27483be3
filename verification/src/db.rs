//! What the tables hold and the rules on what goes into them. Statements and
//! connections are the caller's; here rows are plain values.

pub mod columns;
pub mod push_history;
pub mod quality_profiles;
pub mod root_folders;
pub mod scan_attempts;
pub mod searches;
pub mod settings;
pub mod sources;
pub mod trackers;
pub mod webhook_events;

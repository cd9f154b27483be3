//! The decision core of a media orchestrator: what to search for, what to
//! grab, where a finished download lands and how it is named, stated as
//! contracts and proved.

pub mod catalogue;
pub mod db;
pub mod deliver;
pub mod episode_match;
pub mod error;
pub mod flip;
pub mod folder_names;
pub mod forget;
pub mod fuzzy;
pub mod grpc;
pub mod host_path;
pub mod import;
pub mod laws;
pub mod maintenance;
pub mod marker;
pub mod metadata;
pub mod notify;
pub mod order;
pub mod outside;
pub mod poll;
pub mod provider_cache;
pub mod push;
pub mod queue;
pub mod relink;
pub mod remote_path;
pub mod runtime;
pub mod scan;
pub mod text;

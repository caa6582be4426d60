//! A sandboxed plugin runtime kernel: lifecycle state machine, permission model,
//! filesystem and network guards, per-plugin storage, audit records, manifest
//! validation and dependency resolution.
pub mod state;
pub mod text;
pub mod manifest;
pub mod lifecycle;
pub mod clock;
pub mod audit;
pub mod permission;
pub mod registry;
pub mod filesystem;
pub mod network;
pub mod storage;
pub mod models;
pub mod cache;

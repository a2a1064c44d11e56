//! A verified core for a local multi-workspace orchestrator: slot registry
//! and lifecycle, port allocation, blueprint resolution, service discovery
//! from log output, the framed agent-host IPC, and the log pipeline.
//!
//! Filesystem, network and child-process work stays outside; the library
//! states and proves the decisions those edges feed.

pub mod agentcmd;
pub mod batch;
pub mod blueprint;
pub mod blueprintdoc;
pub mod control;
pub mod discovery;
pub mod errors;
pub mod framing;
pub mod logs;
pub mod manifest;
pub mod models;
pub mod ports;
pub mod registry;
pub mod session;
pub mod repo;
pub mod statedoc;
pub mod text;
pub mod ui_state;

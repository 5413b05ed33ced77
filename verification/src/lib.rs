//! Core of a change-id-centric code-review engine: diff parsing, line
//! mapping of review threads across amendments, durable review and session
//! documents, the merge gate, and the feedback report.
//!
//! Everything here is pure logic over plain values; process invocation and
//! filesystem access live with the callers, which hand in command output and
//! file contents as strings.

pub mod commands;
pub mod diff;
pub mod dvcs;
pub mod feedback;
pub mod gate;
mod ids;
pub mod mapper;
pub mod order;
pub mod report;
pub mod review;
pub mod service;
pub mod session;
pub mod text;
pub mod timeline;
pub mod todo;
pub mod topic;

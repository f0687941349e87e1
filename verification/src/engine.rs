//! Sans-IO decision logic. This module defers all I/O to the caller.
//!
//! The operations here process inputs into verdicts or suspense points.
//! They make no side-effects and are meant to be testable without access to
//! the target platform. The caller (platform) is responsible for executing
//! the side-effects and resuming across the suspense points.

pub mod field_type;
pub mod schema;
pub mod generate;
pub mod resolve;

//! Scheduling, approval and streaming of the tool calls of an agent turn.
//!
//! A turn of an agent can ask for several tool calls. [`approval`] asks the
//! user about those that need it, [`frontend`] hands over those that the
//! frontend performs, [`schedule`] decides which calls run side by side and
//! which one after the other, and [`stream`] reports what a running call does.

pub mod approval;
pub mod approval_laws;
pub mod context;
pub mod conversation;
pub mod external;
pub mod external_types;
pub mod frontend;
pub mod policy;
pub mod responses;
pub mod schedule;
pub mod schedule_laws;
pub mod stream;
pub mod text;

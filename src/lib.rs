//! Verified core of a two-party RDMA WRITE benchmark: the transfer planner,
//! the completion and per-queue-pair driving logic, the control envelope,
//! GID and route selection, and queue-pair configuration.

pub mod completion;
pub mod config;
pub mod control;
pub mod envelope;
pub mod error;
pub mod gid;
pub mod planner;
pub mod qp;
pub mod route;


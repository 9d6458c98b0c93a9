//! A minimal freelance-job registry: a registry of users and a board of jobs,
//! each kept in an in-memory association keyed by a string identifier.
//!
//! [`user::UserRegistry`] registers users; [`board::JobBoard`] posts jobs
//! under freshly generated identifiers, fetches a job by identifier, and
//! lists the open jobs.

pub mod board;
pub mod error;
pub mod job;
pub mod user;

//! Consistency validation for an organization's membership graph.
//!
//! The library holds a read-only data model of teams, people, repositories,
//! mailing lists, chat groups and permission grants, and a fixed set of
//! independent consistency checks over it. A validation run executes every
//! check, collects every violation as one human-readable message, and reports
//! the deduplicated, lexicographically sorted message set.
pub mod collect;
pub mod data;
pub mod directory;
pub mod hierarchy;
pub mod laws;
pub mod lists;
pub mod membership;
pub mod messages;
pub mod order;
pub mod permissions;
pub mod repos;
pub mod rfcbot;
pub mod runner;
pub mod seqtools;
pub mod text;

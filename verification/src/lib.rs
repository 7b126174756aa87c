//! Compares the HTTP responses that two or more deployments of one API
//! serve: a configuration of endpoint templates expands into concrete
//! comparison jobs, one request per domain; responses are serialized,
//! optionally normalized by an external processor, and diffed line by line
//! against the first domain's response; the diff classifies each request
//! and each job as passing or failing. The state the interface shows is
//! driven by a single reducer over typed actions.

pub mod types;
pub mod utils;
pub mod text;
pub mod json;
pub mod config;
pub mod urls;
pub mod vars;
pub mod diff;
pub mod request;
pub mod job;
pub mod mapper;
pub mod notification;
pub mod app_state;
pub mod actions;
pub mod reducer;
pub mod sched;
pub mod control;
pub mod cli;

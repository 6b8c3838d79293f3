//! A resumable HTTP downloader's engine: the chunk planner, the reading of probe headers,
//! the dispatcher's decisions, and the resume record's reconciliation and progress.

pub mod dispatcher;
pub mod executor;
pub mod headers;
pub mod paths;
pub mod planner;

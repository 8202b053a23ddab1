//! A breadth-first web crawler core: a frontier (work queue plus visited
//! set with exactly-once acceptance), a scope filter (depth and domain
//! gating), and the controller that sequences claim, fetch outcome,
//! link discovery and page recording, under a page cap.

pub mod api;
pub mod config;
pub mod engine;
pub mod frontier;
pub mod parser;
pub mod scope;
pub mod storage;
pub mod urls;

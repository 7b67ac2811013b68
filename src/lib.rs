//! A bounded-depth crawler core: link resolution and filtering, URL
//! normalization, a visited set, a concurrency limiter, a header scanner and
//! the orchestration state machine that ties them together.
pub mod text;
pub mod scanner;
pub mod links;
pub mod frontier;
pub mod limiter;
pub mod crawler;
pub mod progress;

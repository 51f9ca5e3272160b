//! Job orchestration core: a registry of asynchronous generation jobs, the
//! decision logic that drives each job through admission, paced
//! sub-operations, rate-limit retry and cancellation, and a recursive snippet
//! expander used to pre-process request text.

pub mod api;
pub mod dto;
pub mod job;
pub mod outputs;
pub mod outside;
pub mod pipeline;
pub mod presets;
pub mod snippet;
pub mod store;
pub mod text;

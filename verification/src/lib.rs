//! Verified core of a local-model gateway: tool-call recovery, request
//! admission, retry and residency policy, sandbox profiles, service files,
//! meeting rooms and the bookkeeping around them.

pub mod chat;
pub mod engine;
pub mod json;
pub mod meeting;
pub mod mistralrs_admission;
pub mod mistralrs_backend;
pub mod mlx_native_backend;
pub mod models;
pub mod modelscope;
pub mod obs;
pub mod openai_http;
pub mod paths;
pub mod proxy;
pub mod resident;
pub mod rounding;
pub mod router;
pub mod sandbox;
pub mod service;
pub mod services;
pub mod serving;
pub mod text;

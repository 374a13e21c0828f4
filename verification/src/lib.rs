//! Build-step engine for container provisioning: a deterministic digest
//! accumulator for cache keys, package feature resolution, an ecosystem
//! manifest scanner, the bookkeeping context threaded through every build
//! step, and the step variants themselves.

pub mod strutil;
pub mod packages;
pub mod digest;
pub mod manifest;
pub mod build_step;
pub mod context;
pub mod npm;
pub mod packaging;
pub mod settings;

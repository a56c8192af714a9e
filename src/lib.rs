//! A local-first web-of-trust store for vetting third-party packages, with
//! identity-based merge of peers' stores and an ecosystem extension that
//! resolves a project's dependencies to registry metadata.
pub mod entity;
pub mod store;
pub mod review;
pub mod merge;
pub mod extension;
pub mod js;
pub mod config;

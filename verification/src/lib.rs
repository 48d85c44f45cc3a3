//! Name resolution and metric projection for simulation snapshot documents.
//!
//! The library turns an ambiguously shaped document tree into a stable set of
//! labeled numeric observations: generic nodes model the map/list/absent
//! ambiguity, a localization catalog maps keys to templates, the resolver
//! expands small name-template trees into display strings, and the projector
//! walks known entity categories and emits metric observations.

pub mod catalog;
pub mod config;
pub mod metrics;
pub mod node;
pub mod numeric;
pub mod projector;
pub mod resolver;
pub mod store;
pub mod text;


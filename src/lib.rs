//! Routing and dispatch core of a small template-rendering HTTP service.
//!
//! Route patterns are validated and kept per shape, request paths are
//! matched through a prefix tree, the bound segments are gathered into a
//! parameter map, and the outcome of a request is turned into a reply.

pub mod dispatch;
pub mod params;
pub mod pattern;
pub mod table;

//! Configuration-driven mock HTTP responder: a declarative description of a
//! server, its routes and candidate responses is loaded from a structured
//! text document, compiled into an immutable route table, and served.
//!
//! The data model, its persistence (with a proved load/save round trip),
//! active-response resolution, the header cascade and the path pattern
//! compiler are all verified; socket handling and argument parsing live in
//! the surrounding application.

pub mod cli;
pub mod errors;
pub mod http;
pub mod ids;
pub mod ipaddr;
pub mod json;
pub mod keys;
pub mod startup;
pub mod text;

//! An interactive registry of dynamically labeled gauge metrics.
//!
//! The crate holds the verified core of a small metrics shell: a command
//! grammar that turns one text line into a typed operation, and a registry
//! that maps metric names to label-parameterized gauge families. Series
//! values are carried as the 64 bits of their IEEE encoding; the host
//! process converts at the boundary and renders them.

pub mod assoc;
pub mod complete;
pub mod grammar;
pub mod interp;
pub mod laws;
pub mod metric;
pub mod registry;

pub use complete::completions_for;
pub use grammar::parse_command;
pub use grammar::Command;
pub use grammar::ParseError;
pub use interp::execute;
pub use interp::Op;
pub use interp::Outcome;
pub use metric::Metric;
pub use registry::DynamicRegistry;
pub use registry::RegError;

//! The engine of a debugging HTTP proxy: what an exchange is, how the tools change it, and what
//! the proxy decides at each step of it.

pub mod body;
pub mod breakpoints;
pub mod cert;
pub mod der;
pub mod events;
pub mod flow;
pub mod gui;
pub mod har;
pub mod headers;
pub mod ids;
pub mod json;
pub mod log;
pub mod mcp;
pub mod mitm;
pub mod model;
pub mod pipeline;
pub mod target;
pub mod text;
pub mod tools;
pub mod tunnel;
pub mod wire;

use vstd::prelude::*;

verus! {

/// The version of the proxy.
pub const VERSION: &'static str = "0.1.0";

} // verus!

//! A gateway between one MCP client and its tool servers.
//!
//! The gateway merges the tool listings of several servers into one, shows the
//! client compacted tool definitions, and sends each tool call to the server
//! that owns the tool, after the arguments were checked against the schema that
//! the server published.
//!
//! - [`json`], [`number`], [`wire`] and [`text`]: values and their text
//! - [`compactor`]: signatures and lean schemas
//! - [`validator`]: what a schema accepts, and how a value fails it
//! - [`model`] and [`router`]: what the router does with every frame
//! - [`ledger`] and [`tables`]: what the router remembers
//! - [`metrics`], [`protocol`], [`config`], [`cli`] and [`sse`]: the rest of the gateway
//! - [`laws`]: what holds of the whole
pub mod cli;
pub mod compactor;
pub mod config;
pub mod json;
pub mod laws;
pub mod ledger;
pub mod metrics;
pub mod model;
pub mod number;
pub mod protocol;
pub mod router;
pub mod sse;
pub mod tables;
pub mod text;
pub mod validator;
pub mod wire;

pub use cli::Compression;

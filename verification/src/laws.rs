//! What holds of the gateway as a whole.
//!
//! Each public proof function here states one law, over the same mathematical
//! readings that the functions' own contracts use.
pub mod arguments;
pub mod calls;
pub mod compaction;
pub mod consistency;
pub mod dispatch;
pub mod frames;
pub mod listing;
pub mod merging;
pub mod numbers;
pub mod readings;
pub mod routing;
pub mod signatures;
pub mod startup;
pub mod telemetry;
pub mod texts;
pub mod transport;
pub mod validation;
pub mod values;

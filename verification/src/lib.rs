//! A log-tailing shipping engine: it frames whole lines out of a growing
//! file, sizes the next read, builds batches of timestamped events and
//! tracks the offset and sequence token of each watched file.
//!
//! - `reader`: which bytes of a read are whole lines, and where the next
//!   read starts.
//! - `window`: how large the next read is.
//! - `pattern`, `timestamp`: the instant that a line is dated at.
//! - `batch`: the events of a block of text.
//! - `sink`: what the answers of the sink mean.
//! - `state`: the offset and token that survive a restart.
//! - `shipper`: the state machine that ties them together.
//! - `config`: what is configured of the agent and of each watched file.
//! - `text`: strings as sequences of characters.

pub mod batch;
pub mod config;
pub mod pattern;
pub mod reader;
pub mod shipper;
pub mod sink;
pub mod state;
pub mod text;
pub mod timestamp;
pub mod window;

//! A bridge between one line-oriented game-server console and its many
//! consumers: it classifies console output, relays chat in debounced batches,
//! fans output out to independent subscribers, diverts the output that follows
//! a command to the issuer of that command, and decides how to keep the
//! connection alive.
use vstd::prelude::*;

pub mod batch;
pub mod bridge;
pub mod fanout;
pub mod commands;
pub mod markup;
pub mod parser;
pub mod server;
pub mod status;
pub mod supervisor;
pub mod text;
pub mod transport;
pub mod viewer;

//! The streaming side of a command-line chat client: decoding of a
//! server-sent event stream, extraction of message deltas, the state
//! machine that assembles the reply, and the small decisions around it
//! (model, query, history files, busy indicator).
pub mod frame;
pub mod models;
pub mod assembler;
pub mod history;
pub mod indicator;
pub mod cli;

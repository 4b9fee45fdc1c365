//! The core of a collaborative pixel-canvas server.
//!
//! Every decision that the server takes between two round trips to its
//! store, its cache or its clients lives here, as a function with a
//! machine-checked contract: how tiles are addressed, what a draw writes and
//! in which order, when a client has to wait, what the rows and buffers that
//! come back mean, and what is announced to subscribers.

pub mod bus;
pub mod dict;
pub mod gate;
pub mod handlers;
pub mod models;
pub mod query;
pub mod service;
pub mod text;
pub mod utils;

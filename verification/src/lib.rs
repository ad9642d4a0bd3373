//! Core of an interactive network monitor: a force-directed layout engine
//! for topology graphs, a local topology model kept in sync with a remote
//! simulation backend over an asynchronous channel, validation of requested
//! mutations against per-class connectivity invariants, and decaying visual
//! markers for traffic events.
//!
//! All coordinates are fixed-point integers in milli-pixels (one pixel is
//! `SCALE` units) and a relay's reliability parameter is stored in
//! per-mille (`0 ..= SCALE`), so that the whole core stays in integer
//! arithmetic.

pub mod anim;
pub mod bootstrap;
pub mod channel;
pub mod commands;
pub mod gate;
pub mod graph;
pub mod layout;
pub mod model;
pub mod node;
pub mod num;
pub mod panels;
pub mod reconcile;
pub mod rng;
pub mod state;
pub mod types;

//! The coordination core of an event loop that runs application callbacks on a
//! dedicated worker thread fed by a serial, FIFO message receiver.
//!
//! The library holds the decisions of that loop: the command queue, the flush
//! barrier list, the worker's dispatch state machine and the once-only
//! termination claim, together with a model of the receiver over which the
//! ordering guarantees are proved. Threads, locks and the native receiver
//! live around it.

pub mod util;
pub mod command;
pub mod flush;
pub mod worker;
pub mod termination;
pub mod model;

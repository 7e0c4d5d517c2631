//! Delivery of HTTP response records from background request tasks to a
//! frame-driven render loop.
//!
//! The library holds the logic of that handoff: decoding response headers and
//! bodies into a display-ready [`record::ResponseRecord`], moving records
//! through the FIFO [`channel::ResultChannel`], and updating the render-loop
//! state in [`state`]. The surrounding process (window, HTTP transport,
//! threads) drives these functions from outside.

pub mod channel;
pub mod model;
pub mod record;
pub mod state;
pub mod task;

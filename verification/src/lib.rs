//! Shred forwarding: what is received, what is sent on and where to, and how far the sources of
//! the same shred lie apart.
pub mod addr;
pub mod bindings;
pub mod clock;
pub mod control;
pub mod datapoint;
pub mod destinations;
pub mod forwarder;
pub mod histogram;
pub mod metrics;
pub mod packet;
pub mod retention;
pub mod tracker;

pub mod batch;
pub mod codec;
pub mod config;
pub mod forwarder;
pub mod intake;
pub mod naming;
pub mod order;
pub mod queue;
pub mod retry;
pub mod stats;

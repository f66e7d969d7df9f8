pub mod aligned;
pub mod barrier;
pub mod error;
pub mod fetch;
pub mod index;
pub mod inflight;
pub mod io;
pub mod record_handle;
pub mod request;
pub mod segment;

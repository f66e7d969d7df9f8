//! Verified core of the elastic stream storage: the wire codec, stream and range
//! metadata, the append window and worker decisions of a data node, the replication
//! bookkeeping, the fetch and I/O decisions of the store, the sessions of the placement
//! client, the cache accounting of the tiered storage and the simplification of metric
//! dumps.
pub mod client;
pub mod codec;
pub mod metrics;
pub mod model;
pub mod node;
pub mod replication;
pub mod store;
pub mod tiered;

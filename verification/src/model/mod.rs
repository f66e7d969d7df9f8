pub mod append_entry;
pub mod data_node;
pub mod payload;
pub mod range_metadata;
pub mod response;
pub mod stream;

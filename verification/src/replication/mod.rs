pub mod fetch;
pub mod order;
pub mod range;

pub mod cursor;
pub mod error;
pub mod frame;
pub mod text;
pub mod wire;

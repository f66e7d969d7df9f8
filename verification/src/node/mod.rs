pub mod idle;
pub mod launch;
pub mod profiling;
pub mod range;
pub mod window;
pub mod worker;

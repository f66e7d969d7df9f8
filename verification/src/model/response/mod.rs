pub mod append;

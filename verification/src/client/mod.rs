pub mod session;
pub mod session_manager;

//! What runs while the system is up.
pub mod keyboard;
pub mod session;

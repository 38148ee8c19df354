pub mod exception;
pub mod signal;

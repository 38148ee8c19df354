pub mod context;
pub mod exception;
pub mod x86_64;

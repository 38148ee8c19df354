pub mod errno;
pub mod wire;
pub mod signal;
pub mod arch;
pub mod credentials;
pub mod process;
pub mod fs;
pub mod deadline;
pub mod timespec;
pub mod text;
pub mod kernfs;
pub mod net;
pub mod rootfs;
pub mod processor;
pub mod procfs;

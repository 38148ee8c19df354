pub mod abi;
pub mod error;
pub mod node;
pub mod timerfd;
pub mod shm;
pub mod eventfd;
pub mod pidfd;
pub mod poll;
pub mod fd;
pub mod pty;
pub mod inotify;

pub mod abi;
pub mod delivery;
pub mod state;
pub mod fd;

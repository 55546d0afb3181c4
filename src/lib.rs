pub mod compound;
pub mod error;
pub mod pinmanager;
pub mod pins;
pub mod pinset;
pub mod port;

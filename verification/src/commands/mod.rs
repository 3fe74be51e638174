//! The commands.
pub mod format;
pub mod full_recover;
pub mod harvest;
pub mod init;
pub mod init_common;
pub mod mount;
pub mod restore;
pub mod session;
pub mod status;

//! The verified core of schelk, which keeps a scratch volume that can be brought back to
//! the contents of a virgin volume after every benchmark run, by copying only the blocks
//! that were written.
//!
//! - [`chunks`], [`ring`], [`copy`] and [`io`]: which bytes are copied, in what pieces and
//!   operations, and what that does to the destination.
//! - [`dmera`] and [`xml`]: the dm-era device and the changed blocks that it reports.
//! - [`commands`]: each command as a run that asks for one thing after another and is told
//!   how it went.
//! - [`state`], [`ramdisk`], [`mount`], [`volume`], [`reset`]: the rules for what the
//!   commands work with.
//! - [`cli`], [`cmd`], [`confirm`], [`env`], [`error`], [`text`], [`timing`]: what they have in
//!   common.

pub mod chunks;
pub mod cli;
pub mod cmd;
pub mod commands;
pub mod confirm;
pub mod copy;
pub mod dmera;
pub mod env;
pub mod error;
pub mod io;
pub mod mount;
pub mod ramdisk;
pub mod reset;
pub mod ring;
pub mod state;
pub mod text;
pub mod timing;
pub mod volume;
pub mod xml;

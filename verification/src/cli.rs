//! The command line: the commands and what they ask of the process.

use vstd::prelude::*;
use vstd::string::*;
use crate::text::{decimal, decimal_text, joined};

verus! {

/// The granularity where none is given.
pub const DEFAULT_GRANULARITY: u64 = 4096;

/// What the user asked for.
#[derive(Debug)]
pub struct Cli {
    /// Whether everything is confirmed beforehand.
    pub yes: bool,
    /// Where the state lies, if not at the usual place.
    pub state_path: Option<String>,
    pub command: Option<Command>,
}

/// A command.
#[derive(Debug)]
pub enum Command {
    /// Creates a filesystem on the virgin volume and copies it to scratch.
    InitNew {
        virgin: String,
        scratch: String,
        ramdisk: String,
        mount_point: String,
        mount_options: Option<String>,
        granularity: u64,
        dm_era_name: String,
    },
    /// Adopts a virgin volume that already holds data.
    InitFrom {
        virgin: String,
        scratch: String,
        ramdisk: String,
        mount_point: String,
        fstype: String,
        mount_options: Option<String>,
        granularity: u64,
        dm_era_name: String,
        no_copy: bool,
    },
    /// Copies the whole virgin volume to scratch.
    FullRecover,
    /// Mounts the scratch volume and tracks writes to it.
    Mount,
    /// Restores the changed blocks of scratch from virgin.
    Recover { kill: bool },
    /// Recovers and mounts again.
    Restore { kill: bool },
    /// Makes the scratch volume the new virgin.
    Promote { kill: bool },
    /// Shows the current status.
    Status,
}

/// Whether a command must not be interrupted: it changes devices in several steps.
pub open spec fn uninterruptible(command: Command) -> bool {
    match command {
        Command::FullRecover => true,
        Command::Mount => true,
        Command::Recover { kill } => true,
        Command::Restore { kill } => true,
        Command::Promote { kill } => true,
        _ => false,
    }
}

impl Command {
    /// Whether signals that would end the process are refused.
    pub fn refuses_signals(&self) -> (yes: bool)
        ensures
            yes == uninterruptible(*self),
    {
        match self {
            Command::FullRecover => true,
            Command::Mount => true,
            Command::Recover { kill: _ } => true,
            Command::Restore { kill: _ } => true,
            Command::Promote { kill: _ } => true,
            _ => false,
        }
    }
}

impl Cli {
    /// The command to run: the status where none is given.
    pub fn into_command(self) -> (command: Command)
        ensures
            command == (match self.command {
                Some(c) => c,
                None => Command::Status,
            }),
    {
        match self.command {
            Some(c) => c,
            None => Command::Status,
        }
    }
}

/// The version, with the commit that it was built from where that is known.
pub fn version_string(version: &str, sha: Option<&str>) -> (s: String)
    ensures
        s@ == (match sha {
            Some(c) => version@ + " ("@ + c@ + ")"@,
            None => version@,
        }),
{
    match sha {
        Some(c) => {
            let mut s = joined(version, " (");
            s.append(c);
            s.append(")");
            s
        },
        None => version.to_owned(),
    }
}

/// What is printed when a signal is refused.
pub fn signal_refusal(pid: u32) -> (s: String)
    ensures
        s@
            == "\nRefusing to handle signal. Interrupting this operation can corrupt your volumes.\nIf you really want to stop it, use: kill -9 "@
            + decimal(pid as nat),
{
    joined(
        "\nRefusing to handle signal. Interrupting this operation can corrupt your volumes.\nIf you really want to stop it, use: kill -9 ",
        decimal_text(pid as u64).as_str(),
    )
}

/// The commands that must not be interrupted are all but the initializations and the status.
pub proof fn law_which_commands_refuse_signals(command: Command)
    ensures
        uninterruptible(command) <==> !(command is InitNew || command is InitFrom || command
            is Status),
{
}

/// Blocks of 4096 bytes are tracked unless the user says otherwise.
pub proof fn law_the_usual_granularity()
    ensures
        DEFAULT_GRANULARITY == 4096,
{
}

} // verus!

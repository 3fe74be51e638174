//! The errors of the commands and their texts.

use vstd::prelude::*;
use vstd::string::*;
use crate::text::{decimal, decimal_text, joined, texts};

verus! {

/// One of the two volumes.
#[derive(Debug, Clone, Copy, PartialEq, Eq, Structural)]
pub enum Volume {
    Virgin,
    Scratch,
}

/// A pair of devices that must differ.
#[derive(Debug, Clone, Copy, PartialEq, Eq, Structural)]
pub enum DevicePair {
    VirginScratch,
    VirginRamdisk,
    ScratchRamdisk,
}

/// What was being done when a step failed.
#[derive(Debug, Clone, Copy, PartialEq, Eq, Structural)]
pub enum Context {
    Unmount,
    TakeSnapshot,
    CollectBlocks,
    DropSnapshot,
    RemoveDevice,
    CopyBlocks,
    CreateDevice,
    Checkpoint,
    Mount,
}

/// Why a command failed.
#[derive(Debug)]
pub enum Error {
    NotRoot,
    NotInitialized,
    AlreadyMounted,
    NotMounted,
    Cancelled,
    /// A superblock does not hold what the state says.
    VolumeMismatch { volume: Volume },
    ZeroGranularity,
    UnevenGranularity { granularity: u64 },
    /// Two devices that must differ are the same.
    SameDevice { pair: DevicePair, first: String, second: String },
    /// The two volumes differ in size, found while recovering.
    SizeMismatch { virgin_size: u64, scratch_size: u64 },
    /// The two volumes differ in size, found while initializing.
    VolumesDiffer { virgin: String, virgin_size: u64, scratch: String, scratch_size: u64 },
    RamdiskTooSmall { required: u64, actual: u64 },
    /// The size that the RAM disk needs does not fit in 64 bits.
    RamdiskSizeOverflow,
    MountpointInUse { mount_point: String },
    DeviceAlreadyExists { name: String },
    DeviceMissingForRecover { name: String },
    DeviceMissingForPromote { name: String },
    /// The reported ranges cannot be copied: an offset does not fit.
    RangesTooLarge,
    /// A step failed, with what it reported.
    Failed { message: String },
    /// A step failed while something was being done.
    Wrapped { context: Context, message: String },
}

/// The error of a command that needs the state of an initialized schelk.
pub fn not_initialized() -> (e: Error)
    ensures
        e == Error::NotInitialized,
{
    Error::NotInitialized
}

/// The error for a superblock that does not hold what the state says.
pub fn volume_mismatch(volume: Volume) -> (e: Error)
    ensures
        e == (Error::VolumeMismatch { volume }),
{
    Error::VolumeMismatch { volume }
}

/// The error for a volume that must not be mounted.
pub fn already_mounted() -> (e: Error)
    ensures
        e == Error::AlreadyMounted,
{
    Error::AlreadyMounted
}

/// The error for a volume that must be mounted.
pub fn not_mounted() -> (e: Error)
    ensures
        e == Error::NotMounted,
{
    Error::NotMounted
}

impl Context {
    /// The text of the context.
    pub open spec fn words(self) -> Seq<char> {
        match self {
            Context::Unmount => "Failed to unmount filesystem"@,
            Context::TakeSnapshot => "Failed to take metadata snapshot"@,
            Context::CollectBlocks => "Failed to collect changed blocks"@,
            Context::DropSnapshot => "Failed to drop metadata snapshot"@,
            Context::RemoveDevice => "Failed to remove dm-era device"@,
            Context::CopyBlocks => "Failed to copy blocks"@,
            Context::CreateDevice => "Failed to create dm-era device"@,
            Context::Checkpoint => "Failed to checkpoint dm-era device"@,
            Context::Mount => "Failed to mount dm-era device"@,
        }
    }

    /// The text of the context.
    pub fn text(self) -> (s: String)
        ensures
            s@ == self.words(),
    {
        match self {
            Context::Unmount => "Failed to unmount filesystem".to_owned(),
            Context::TakeSnapshot => "Failed to take metadata snapshot".to_owned(),
            Context::CollectBlocks => "Failed to collect changed blocks".to_owned(),
            Context::DropSnapshot => "Failed to drop metadata snapshot".to_owned(),
            Context::RemoveDevice => "Failed to remove dm-era device".to_owned(),
            Context::CopyBlocks => "Failed to copy blocks".to_owned(),
            Context::CreateDevice => "Failed to create dm-era device".to_owned(),
            Context::Checkpoint => "Failed to checkpoint dm-era device".to_owned(),
            Context::Mount => "Failed to mount dm-era device".to_owned(),
        }
    }
}

/// The text for a volume whose superblock is not the expected one.
pub open spec fn mismatch_words(volume: Volume) -> Seq<char> {
    match volume {
        Volume::Virgin => "Virgin volume superblock has changed"@,
        Volume::Scratch =>
            "Scratch volume superblock does not match virgin. Run 'schelk full-recover' first."@,
    }
}

/// The names of two devices that must differ, the second padded to the first.
pub open spec fn pair_words(pair: DevicePair) -> (Seq<char>, Seq<char>, Seq<char>) {
    match pair {
        DevicePair::VirginScratch => (
            "Virgin and scratch must be different devices."@,
            "\n  Virgin:  "@,
            "\n  Scratch: "@,
        ),
        DevicePair::VirginRamdisk => (
            "Virgin and RAM disk must be different devices."@,
            "\n  Virgin:  "@,
            "\n  RAM disk: "@,
        ),
        DevicePair::ScratchRamdisk => (
            "Scratch and RAM disk must be different devices."@,
            "\n  Scratch: "@,
            "\n  RAM disk: "@,
        ),
    }
}

impl Error {
    /// The text of the error itself.
    pub open spec fn words(self) -> Seq<char> {
        match self {
            Error::NotRoot =>
                "This command requires root privileges.\nPlease run with sudo or as root."@,
            Error::NotInitialized =>
                "schelk has not been initialized. Run 'schelk init-new' or 'schelk init-from' first."@,
            Error::AlreadyMounted => "Volume is already mounted."@,
            Error::NotMounted => "Volume is not mounted."@,
            Error::Cancelled => "Operation cancelled by user."@,
            Error::VolumeMismatch { volume } =>
                "Volume superblock does not match expected state. The volume may have been modified externally."@,
            Error::ZeroGranularity => "Granularity must be greater than 0."@,
            Error::UnevenGranularity { granularity } =>
                "Granularity must be a multiple of 512 bytes (got "@ + decimal(granularity as nat)
                + " bytes)."@,
            Error::SameDevice { pair, first, second } => pair_words(pair).0 + pair_words(pair).1
                + first@ + pair_words(pair).2 + second@,
            Error::SizeMismatch { virgin_size, scratch_size } => "Volume size mismatch: virgin is "@
                + decimal(virgin_size as nat) + " bytes, scratch is "@ + decimal(scratch_size as nat)
                + " bytes"@,
            Error::VolumesDiffer { virgin, virgin_size, scratch, scratch_size } =>
                "Virgin and scratch volumes must be the same size.\n  Virgin:  "@ + virgin@ + " ("@
                + decimal(virgin_size as nat) + " bytes)\n  Scratch: "@ + scratch@ + " ("@
                + decimal(scratch_size as nat) + " bytes)"@,
            Error::RamdiskTooSmall { required, actual } => "RAM disk too small: "@ + decimal(
                required as nat,
            ) + " bytes required, "@ + decimal(actual as nat) + " bytes available."@,
            Error::RamdiskSizeOverflow => "RAM disk size for this granularity is out of range"@,
            Error::MountpointInUse { mount_point } => "Mountpoint "@ + mount_point@
                + " is already in use.\nState says not mounted, but filesystem is mounted. This may indicate a crash.\nManually unmount with: sudo umount "@
                + mount_point@,
            Error::DeviceAlreadyExists { name } => "dm-era device '"@ + name@
                + "' already exists.\nThis may indicate a previous crash. Run 'schelk recover' or manually remove with:\n  sudo dmsetup remove "@
                + name@,
            Error::DeviceMissingForRecover { name } => "dm-era device '"@ + name@
                + "' does not exist.\nState says mounted but device is missing — likely a host reboot or power loss.\nIncremental recovery is not possible. Run 'schelk full-recover' to restore scratch from virgin."@,
            Error::DeviceMissingForPromote { name } => "dm-era device '"@ + name@
                + "' does not exist.\nState says mounted but device is missing. This may indicate a system crash.\nRun 'schelk mount' to remount, or manually reset state."@,
            Error::RangesTooLarge => "Changed blocks lie beyond the range of byte offsets or are too large to copy"@,
            Error::Failed { message } => message@,
            Error::Wrapped { context, message } => message@,
        }
    }

    /// The texts of the error, what was being done before what happened.
    pub open spec fn chain(self) -> Seq<Seq<char>> {
        match self {
            Error::VolumeMismatch { volume } => seq![mismatch_words(volume), self.words()],
            Error::Wrapped { context, message } => seq![context.words(), message@],
            _ => seq![self.words()],
        }
    }

    /// The text of the error itself.
    pub fn message(&self) -> (s: String)
        ensures
            s@ == self.words(),
    {
        match self {
            Error::NotRoot =>
                "This command requires root privileges.\nPlease run with sudo or as root.".to_owned(),
            Error::NotInitialized =>
                "schelk has not been initialized. Run 'schelk init-new' or 'schelk init-from' first.".to_owned(),
            Error::AlreadyMounted => "Volume is already mounted.".to_owned(),
            Error::NotMounted => "Volume is not mounted.".to_owned(),
            Error::Cancelled => "Operation cancelled by user.".to_owned(),
            Error::VolumeMismatch { volume: _ } =>
                "Volume superblock does not match expected state. The volume may have been modified externally.".to_owned(),
            Error::ZeroGranularity => "Granularity must be greater than 0.".to_owned(),
            Error::UnevenGranularity { granularity } => {
                let mut s = "Granularity must be a multiple of 512 bytes (got ".to_owned();
                s.append(decimal_text(*granularity).as_str());
                s.append(" bytes).");
                s
            },
            Error::SameDevice { pair, first, second } => {
                let (head, a, b) = match pair {
                    DevicePair::VirginScratch => (
                        "Virgin and scratch must be different devices.",
                        "\n  Virgin:  ",
                        "\n  Scratch: ",
                    ),
                    DevicePair::VirginRamdisk => (
                        "Virgin and RAM disk must be different devices.",
                        "\n  Virgin:  ",
                        "\n  RAM disk: ",
                    ),
                    DevicePair::ScratchRamdisk => (
                        "Scratch and RAM disk must be different devices.",
                        "\n  Scratch: ",
                        "\n  RAM disk: ",
                    ),
                };
                let mut s = joined(head, a);
                s.append(first.as_str());
                s.append(b);
                s.append(second.as_str());
                s
            },
            Error::SizeMismatch { virgin_size, scratch_size } => {
                let mut s = "Volume size mismatch: virgin is ".to_owned();
                s.append(decimal_text(*virgin_size).as_str());
                s.append(" bytes, scratch is ");
                s.append(decimal_text(*scratch_size).as_str());
                s.append(" bytes");
                s
            },
            Error::VolumesDiffer { virgin, virgin_size, scratch, scratch_size } => {
                let mut s =
                    "Virgin and scratch volumes must be the same size.\n  Virgin:  ".to_owned();
                s.append(virgin.as_str());
                s.append(" (");
                s.append(decimal_text(*virgin_size).as_str());
                s.append(" bytes)\n  Scratch: ");
                s.append(scratch.as_str());
                s.append(" (");
                s.append(decimal_text(*scratch_size).as_str());
                s.append(" bytes)");
                s
            },
            Error::RamdiskTooSmall { required, actual } => {
                let mut s = "RAM disk too small: ".to_owned();
                s.append(decimal_text(*required).as_str());
                s.append(" bytes required, ");
                s.append(decimal_text(*actual).as_str());
                s.append(" bytes available.");
                s
            },
            Error::RamdiskSizeOverflow =>
                "RAM disk size for this granularity is out of range".to_owned(),
            Error::MountpointInUse { mount_point } => {
                let mut s = joined("Mountpoint ", mount_point.as_str());
                s.append(
                    " is already in use.\nState says not mounted, but filesystem is mounted. This may indicate a crash.\nManually unmount with: sudo umount ",
                );
                s.append(mount_point.as_str());
                s
            },
            Error::DeviceAlreadyExists { name } => {
                let mut s = joined("dm-era device '", name.as_str());
                s.append(
                    "' already exists.\nThis may indicate a previous crash. Run 'schelk recover' or manually remove with:\n  sudo dmsetup remove ",
                );
                s.append(name.as_str());
                s
            },
            Error::DeviceMissingForRecover { name } => {
                let mut s = joined("dm-era device '", name.as_str());
                s.append(
                    "' does not exist.\nState says mounted but device is missing — likely a host reboot or power loss.\nIncremental recovery is not possible. Run 'schelk full-recover' to restore scratch from virgin.",
                );
                s
            },
            Error::DeviceMissingForPromote { name } => {
                let mut s = joined("dm-era device '", name.as_str());
                s.append(
                    "' does not exist.\nState says mounted but device is missing. This may indicate a system crash.\nRun 'schelk mount' to remount, or manually reset state.",
                );
                s
            },
            Error::RangesTooLarge =>
                "Changed blocks lie beyond the range of byte offsets or are too large to copy".to_owned(),
            Error::Failed { message } => message.clone(),
            Error::Wrapped { context: _, message } => message.clone(),
        }
    }

    /// The texts of the error, what was being done before what happened.
    pub fn messages(&self) -> (list: Vec<String>)
        ensures
            texts(list@) == self.chain(),
    {
        let mut list: Vec<String> = Vec::new();
        match self {
            Error::VolumeMismatch { volume } => {
                match volume {
                    Volume::Virgin => {
                        list.push("Virgin volume superblock has changed".to_owned());
                    },
                    Volume::Scratch => {
                        list.push(
                            "Scratch volume superblock does not match virgin. Run 'schelk full-recover' first.".to_owned(),
                        );
                    },
                }
            },
            Error::Wrapped { context, message: _ } => {
                list.push(context.text());
            },
            _ => {},
        }
        list.push(self.message());
        assert(texts(list@) =~= self.chain());
        list
    }
}

/// What each error says, in the words of its own.
pub proof fn law_what_the_errors_say(error: Error)
    ensures
        error.words() == (match error {
                    Error::NotRoot =>
                        "This command requires root privileges.\nPlease run with sudo or as root."@,
                    Error::NotInitialized =>
                        "schelk has not been initialized. Run 'schelk init-new' or 'schelk init-from' first."@,
                    Error::AlreadyMounted => "Volume is already mounted."@,
                    Error::NotMounted => "Volume is not mounted."@,
                    Error::Cancelled => "Operation cancelled by user."@,
                    Error::VolumeMismatch { volume } =>
                        "Volume superblock does not match expected state. The volume may have been modified externally."@,
                    Error::ZeroGranularity => "Granularity must be greater than 0."@,
                    Error::UnevenGranularity { granularity } =>
                        "Granularity must be a multiple of 512 bytes (got "@ + decimal(granularity as nat)
                        + " bytes)."@,
                    Error::SameDevice { pair, first, second } => match pair {
                        DevicePair::VirginScratch =>
                            "Virgin and scratch must be different devices.\n  Virgin:  "@ + first@ + "\n  Scratch: "@ + second@,
                        DevicePair::VirginRamdisk =>
                            "Virgin and RAM disk must be different devices.\n  Virgin:  "@ + first@ + "\n  RAM disk: "@ + second@,
                        DevicePair::ScratchRamdisk =>
                            "Scratch and RAM disk must be different devices.\n  Scratch: "@ + first@ + "\n  RAM disk: "@ + second@,
                    },
                    Error::SizeMismatch { virgin_size, scratch_size } => "Volume size mismatch: virgin is "@
                        + decimal(virgin_size as nat) + " bytes, scratch is "@ + decimal(scratch_size as nat)
                        + " bytes"@,
                    Error::VolumesDiffer { virgin, virgin_size, scratch, scratch_size } =>
                        "Virgin and scratch volumes must be the same size.\n  Virgin:  "@ + virgin@ + " ("@
                        + decimal(virgin_size as nat) + " bytes)\n  Scratch: "@ + scratch@ + " ("@
                        + decimal(scratch_size as nat) + " bytes)"@,
                    Error::RamdiskTooSmall { required, actual } => "RAM disk too small: "@ + decimal(
                        required as nat,
                    ) + " bytes required, "@ + decimal(actual as nat) + " bytes available."@,
                    Error::RamdiskSizeOverflow => "RAM disk size for this granularity is out of range"@,
                    Error::MountpointInUse { mount_point } => "Mountpoint "@ + mount_point@
                        + " is already in use.\nState says not mounted, but filesystem is mounted. This may indicate a crash.\nManually unmount with: sudo umount "@
                        + mount_point@,
                    Error::DeviceAlreadyExists { name } => "dm-era device '"@ + name@
                        + "' already exists.\nThis may indicate a previous crash. Run 'schelk recover' or manually remove with:\n  sudo dmsetup remove "@
                        + name@,
                    Error::DeviceMissingForRecover { name } => "dm-era device '"@ + name@
                        + "' does not exist.\nState says mounted but device is missing — likely a host reboot or power loss.\nIncremental recovery is not possible. Run 'schelk full-recover' to restore scratch from virgin."@,
                    Error::DeviceMissingForPromote { name } => "dm-era device '"@ + name@
                        + "' does not exist.\nState says mounted but device is missing. This may indicate a system crash.\nRun 'schelk mount' to remount, or manually reset state."@,
                    Error::RangesTooLarge => "Changed blocks lie beyond the range of byte offsets or are too large to copy"@,
                    Error::Failed { message } => message@,
                    Error::Wrapped { context, message } => message@,
                }),
{
    reveal_strlit("Virgin and scratch must be different devices.");
    reveal_strlit("Virgin and RAM disk must be different devices.");
    reveal_strlit("Scratch and RAM disk must be different devices.");
    reveal_strlit("\n  Virgin:  ");
    reveal_strlit("\n  Scratch: ");
    reveal_strlit("Virgin and scratch must be different devices.\n  Virgin:  ");
    reveal_strlit("Virgin and RAM disk must be different devices.\n  Virgin:  ");
    reveal_strlit("Scratch and RAM disk must be different devices.\n  Scratch: ");
    assert("Virgin and scratch must be different devices."@ + "\n  Virgin:  "@
        =~= "Virgin and scratch must be different devices.\n  Virgin:  "@);
    assert("Virgin and RAM disk must be different devices."@ + "\n  Virgin:  "@
        =~= "Virgin and RAM disk must be different devices.\n  Virgin:  "@);
    assert("Scratch and RAM disk must be different devices."@ + "\n  Scratch: "@
        =~= "Scratch and RAM disk must be different devices.\n  Scratch: "@);
}

/// An error that came while something was being done is told after what that was; a superblock
/// that differs is told after which volume has it; and any other error stands alone.
pub proof fn law_errors_are_told_after_their_context(error: Error)
    ensures
        match error {
            Error::VolumeMismatch { volume } => error.chain() == seq![
                match volume {
                        Volume::Virgin => "Virgin volume superblock has changed"@,
                        Volume::Scratch =>
                            "Scratch volume superblock does not match virgin. Run 'schelk full-recover' first."@,
                    },
                error.words(),
            ],
            Error::Wrapped { context, message } => error.chain() == seq![
                match context {
                        Context::Unmount => "Failed to unmount filesystem"@,
                        Context::TakeSnapshot => "Failed to take metadata snapshot"@,
                        Context::CollectBlocks => "Failed to collect changed blocks"@,
                        Context::DropSnapshot => "Failed to drop metadata snapshot"@,
                        Context::RemoveDevice => "Failed to remove dm-era device"@,
                        Context::CopyBlocks => "Failed to copy blocks"@,
                        Context::CreateDevice => "Failed to create dm-era device"@,
                        Context::Checkpoint => "Failed to checkpoint dm-era device"@,
                        Context::Mount => "Failed to mount dm-era device"@,
                    },
                message@,
            ],
            _ => error.chain() == seq![error.words()],
        },
{
}

} // verus!

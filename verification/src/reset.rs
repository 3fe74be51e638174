//! Resetting the metadata device to zeroes.

use vstd::prelude::*;
use vstd::string::*;
use crate::cmd::{Invocation, args_of};
use crate::text::{
    all_digits, chars_of, decimal, decimal_text, joined, parse_u64, texts, trim, trimmed,
    unsigned_up_to,
};

verus! {

/// The block major of RAM disks, `/dev/ram0` and so on.
pub const RAMDISK_MAJOR: u64 = 1;

/// How a device was reset to zeroes.
#[derive(Debug, Clone, Copy, PartialEq, Eq, Structural)]
pub enum ResetMethod {
    /// It was discarded with `blkdiscard`.
    Blkdiscard,
    /// It was overwritten with zeroes.
    ZeroWrite,
}

impl ResetMethod {
    /// The name of the method.
    pub open spec fn words(self) -> Seq<char> {
        match self {
            ResetMethod::Blkdiscard => "blkdiscard"@,
            ResetMethod::ZeroWrite => "sequential zero write"@,
        }
    }

    /// The name of the method.
    pub fn description(self) -> (s: &'static str)
        ensures
            s@ == self.words(),
    {
        match self {
            ResetMethod::Blkdiscard => "blkdiscard",
            ResetMethod::ZeroWrite => "sequential zero write",
        }
    }
}

/// The next thing to find out, or the method to use.
#[derive(Debug, Clone, Copy, PartialEq, Eq, Structural)]
pub enum ResetStep {
    /// Whether the device is a whole RAM disk.
    AskWholeRamdisk,
    /// Whether `blkdiscard` can be run.
    AskBlkdiscard,
    /// The most bytes that one discard takes.
    AskDiscardMax,
    /// The granularity of a discard, and the size of the device.
    AskDiscardGranularity,
    /// Nothing more: use this method.
    Use { method: ResetMethod },
}

/// What has been found out about the device so far.
#[derive(Debug, Clone, Copy)]
pub struct ResetFacts {
    pub whole_ramdisk: Option<bool>,
    pub blkdiscard_available: Option<bool>,
    pub discard_max_bytes: Option<u64>,
    pub granularity_and_size: Option<(u64, u64)>,
}

/// Whether a device can be discarded: it is a whole RAM disk, whose discarded pages
/// read as zeroes; the tool is there; and the whole device can be discarded.
pub open spec fn can_discard(
    whole_ramdisk: bool,
    available: bool,
    max: u64,
    granularity: u64,
    size: u64,
) -> bool {
    whole_ramdisk && available && max != 0 && granularity != 0 && size % granularity == 0
}

/// The next step: each thing is asked only where the answer still matters.
pub open spec fn next_reset_step(f: ResetFacts) -> ResetStep {
    let zero = ResetStep::Use { method: ResetMethod::ZeroWrite };
    match f.whole_ramdisk {
        None => ResetStep::AskWholeRamdisk,
        Some(false) => zero,
        Some(true) => match f.blkdiscard_available {
            None => ResetStep::AskBlkdiscard,
            Some(false) => zero,
            Some(true) => match f.discard_max_bytes {
                None => ResetStep::AskDiscardMax,
                Some(max) => if max == 0 {
                    zero
                } else {
                    match f.granularity_and_size {
                        None => ResetStep::AskDiscardGranularity,
                        Some((granularity, size)) => if granularity == 0 || size % granularity
                            != 0 {
                            zero
                        } else {
                            ResetStep::Use { method: ResetMethod::Blkdiscard }
                        },
                    }
                },
            },
        },
    }
}

/// Decides how a device is reset to zeroes, or what must be found out first.
pub fn reset_to_zero(f: &ResetFacts) -> (step: ResetStep)
    ensures
        step == next_reset_step(*f),
{
    let zero = ResetStep::Use { method: ResetMethod::ZeroWrite };
    match f.whole_ramdisk {
        None => {
            return ResetStep::AskWholeRamdisk;
        },
        Some(whole) => {
            if !whole {
                return zero;
            }
        },
    }
    match f.blkdiscard_available {
        None => {
            return ResetStep::AskBlkdiscard;
        },
        Some(available) => {
            if !available {
                return zero;
            }
        },
    }
    match f.discard_max_bytes {
        None => {
            return ResetStep::AskDiscardMax;
        },
        Some(max) => {
            if max == 0 {
                return zero;
            }
        },
    }
    match f.granularity_and_size {
        None => ResetStep::AskDiscardGranularity,
        Some((granularity, size)) => {
            if granularity == 0 || size % granularity != 0 {
                zero
            } else {
                ResetStep::Use { method: ResetMethod::Blkdiscard }
            }
        },
    }
}

/// A device is discarded only where every condition for it was found to hold, and
/// once everything is known the method is decided by those conditions alone.
pub proof fn law_discard_only_where_safe(f: ResetFacts)
    ensures
        next_reset_step(f) == (ResetStep::Use { method: ResetMethod::Blkdiscard }) ==> {
            &&& f.whole_ramdisk == Some(true)
            &&& f.blkdiscard_available == Some(true)
            &&& f.discard_max_bytes is Some
            &&& f.granularity_and_size is Some
            &&& can_discard(
                true,
                true,
                f.discard_max_bytes->0,
                (f.granularity_and_size->0).0,
                (f.granularity_and_size->0).1,
            )
        },
        f.whole_ramdisk is Some && f.blkdiscard_available is Some && f.discard_max_bytes is Some
            && f.granularity_and_size is Some ==> next_reset_step(f) == (ResetStep::Use {
            method: if can_discard(
                f.whole_ramdisk->0,
                f.blkdiscard_available->0,
                f.discard_max_bytes->0,
                (f.granularity_and_size->0).0,
                (f.granularity_and_size->0).1,
            ) {
                ResetMethod::Blkdiscard
            } else {
                ResetMethod::ZeroWrite
            },
        }),
{
}

/// Whether a device name is that of a whole RAM disk: `ram` and a number.
pub open spec fn whole_ramdisk_name(name: Seq<char>) -> bool {
    name.len() > 3 && name.take(3) == seq!['r', 'a', 'm'] && all_digits(name.skip(3))
}

/// Whether a device name is that of a whole RAM disk.
pub fn is_whole_brd_device_name(name: &str) -> (yes: bool)
    ensures
        yes == whole_ramdisk_name(name@),
{
    let chars = chars_of(name);
    if chars.len() <= 3 {
        return false;
    }
    if chars[0] != 'r' || chars[1] != 'a' || chars[2] != 'm' {
        assert(name@.take(3)[0] == chars@[0] && name@.take(3)[1] == chars@[1] && name@.take(3)[2]
            == chars@[2]);
        return false;
    }
    assert(name@.take(3) =~= seq!['r', 'a', 'm']);
    let mut i: usize = 3;
    while i < chars.len()
        invariant
            chars@ == name@,
            3 <= i <= chars@.len(),
            forall|j: int| 3 <= j < i ==> crate::text::is_digit(#[trigger] chars@[j]),
        decreases chars@.len() - i,
    {
        let c = chars[i];
        if c < '0' || c > '9' {
            assert(name@.skip(3)[i - 3] == c);
            return false;
        }
        i = i + 1;
    }
    assert forall|j: int| 0 <= j < name@.skip(3).len() implies crate::text::is_digit(
        #[trigger] name@.skip(3)[j],
    ) by {
        assert(name@.skip(3)[j] == chars@[j + 3]);
    }
    true
}

/// The major part of a device number.
pub open spec fn device_major(dev: u64) -> u64 {
    ((dev >> 32) & 0xffff_f000) | ((dev >> 8) & 0x0000_0fff)
}

/// The minor part of a device number.
pub open spec fn device_minor(dev: u64) -> u64 {
    ((dev >> 12) & 0xffff_ff00) | (dev & 0x0000_00ff)
}

/// `nix::sys::stat::major`: the major part of a Linux device number, which takes the
/// bits 8 to 19 and 44 to 63.
pub assume_specification[ nix::sys::stat::major ](dev: nix::libc::dev_t) -> (n: u64)
    ensures
        n == device_major(dev),
;

/// `nix::sys::stat::minor`: the minor part of a Linux device number, which takes the
/// bits 0 to 7 and 20 to 43.
pub assume_specification[ nix::sys::stat::minor ](dev: nix::libc::dev_t) -> (n: u64)
    ensures
        n == device_minor(dev),
;

/// Where sysfs describes a device, if it can be a RAM disk; `rdev` is its number.
pub fn brd_sysfs_path(is_block_device: bool, rdev: u64) -> (link: Option<String>)
    ensures
        link is Some <==> is_block_device && device_major(rdev) == RAMDISK_MAJOR,
        link matches Some(path) ==> path@ == "/sys/dev/block/"@ + decimal(
            device_major(rdev) as nat,
        ) + ":"@ + decimal(device_minor(rdev) as nat),
{
    if !is_block_device {
        return None;
    }
    let major: u64 = nix::sys::stat::major(rdev);
    if major != RAMDISK_MAJOR {
        return None;
    }
    let minor: u64 = nix::sys::stat::minor(rdev);
    let mut path = joined("/sys/dev/block/", decimal_text(major).as_str());
    path.append(":");
    path.append(decimal_text(minor).as_str());
    Some(path)
}

/// The number that a file of sysfs holds.
pub fn read_sysfs_u64(contents: &str) -> (n: Option<u64>)
    ensures
        match unsigned_up_to(trimmed(contents@), u64::MAX as nat) {
            Some(v) => n == Some(v as u64),
            None => n is None,
        },
{
    parse_u64(trim(contents).as_str())
}

/// Discards a whole device.
pub fn blkdiscard(path: &str) -> (command: Invocation)
    ensures
        command.runs("blkdiscard"@, seq![path@]),
{
    let args = args_of(&[path]);
    assert(texts(args@) =~= seq![path@]);
    Invocation { program: "blkdiscard".to_owned(), args }
}

/// Asks whether `blkdiscard` can be run: it can where this starts.
pub fn blkdiscard_available() -> (ask: Invocation)
    ensures
        ask.runs("blkdiscard"@, seq!["--version"@]),
{
    let args = args_of(&["--version"]);
    assert(texts(args@) =~= seq!["--version"@]);
    Invocation { program: "blkdiscard".to_owned(), args }
}

/// A device is discarded exactly where it is a whole RAM disk, the tool is there, discards
/// are supported, and the device is a whole number of discards long; nothing is asked that no
/// longer matters, and everything that matters is asked before a device is discarded.
pub proof fn law_what_decides_a_reset(f: ResetFacts)
    ensures
        match next_reset_step(f) {
            ResetStep::AskWholeRamdisk => f.whole_ramdisk is None,
            ResetStep::AskBlkdiscard => f.whole_ramdisk == Some(true) && f.blkdiscard_available
                is None,
            ResetStep::AskDiscardMax => f.whole_ramdisk == Some(true) && f.blkdiscard_available
                == Some(true) && f.discard_max_bytes is None,
            ResetStep::AskDiscardGranularity => {
                &&& f.whole_ramdisk == Some(true)
                &&& f.blkdiscard_available == Some(true)
                &&& f.discard_max_bytes matches Some(max) && max > 0
                &&& f.granularity_and_size is None
            },
            ResetStep::Use { method } => {
                let discardable = {
                    &&& f.whole_ramdisk == Some(true)
                    &&& f.blkdiscard_available == Some(true)
                    &&& f.discard_max_bytes matches Some(max) && max > 0
                    &&& f.granularity_and_size matches Some(pair) && pair.0 > 0 && pair.1 % pair.0
                        == 0
                };
                &&& method == ResetMethod::Blkdiscard <==> discardable
                &&& method == ResetMethod::ZeroWrite ==> {
                    ||| f.whole_ramdisk == Some(false)
                    ||| f.blkdiscard_available == Some(false)
                    ||| f.discard_max_bytes == Some(0u64)
                    ||| f.granularity_and_size matches Some(pair) && (pair.0 == 0 || pair.1
                        % pair.0 != 0)
                }
            },
        },
{
}

/// The names of whole RAM disks are `ram` and a number, and nothing else is one.
pub proof fn law_whole_ramdisks_are_ram_and_a_number(name: Seq<char>, n: nat)
    ensures
        whole_ramdisk_name(seq!['r', 'a', 'm'] + decimal(n)),
        whole_ramdisk_name(name) ==> {
            &&& name.len() > 3
            &&& name[0] == 'r' && name[1] == 'a' && name[2] == 'm'
            &&& forall|i: int| 3 <= i < name.len() ==> '0' <= #[trigger] name[i] <= '9'
        },
{
    let whole = seq!['r', 'a', 'm'] + decimal(n);
    crate::text::law_decimal_is_digits(n);
    assert(whole.take(3) =~= seq!['r', 'a', 'm']);
    assert(whole.skip(3) =~= decimal(n));
    if whole_ramdisk_name(name) {
        assert(name.take(3)[0] == name[0] && name.take(3)[1] == name[1] && name.take(3)[2]
            == name[2]);
        assert forall|i: int| 3 <= i < name.len() implies '0' <= #[trigger] name[i] <= '9' by {
            assert(name.skip(3)[i - 3] == name[i]);
            assert(crate::text::is_digit(name.skip(3)[i - 3]));
        }
    }
}

/// What the methods are called.
pub proof fn law_what_the_methods_are_called(method: ResetMethod)
    ensures
        method.words() == if method == ResetMethod::Blkdiscard {
            "blkdiscard"@
        } else {
            "sequential zero write"@
        },
{
}

} // verus!

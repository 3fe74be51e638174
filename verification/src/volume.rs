//! The two volumes: their validation, their sizes and their superblocks.

use vstd::prelude::*;
use vstd::string::*;
use crate::chunks::{BlockRange, FULL_COPY_CHUNK_SIZE, aligned_up, block_count, prepared, slices};
use crate::cmd::{Invocation, args_of, missing_words, require};
use crate::io::{
    BLOCKS_COPY_SLOTS_PER_RING, BLOCKS_COPY_SQ_DEPTH, CopyPlan, FULL_COPY_SLOTS_PER_RING,
    FULL_COPY_SQ_DEPTH, SUPERBLOCK_SIZE, blocks_fit, blocks_slot_size, plan_carries,
    read_superblock, size_of_device,
};
use crate::text::{joined, texts, trim, trimmed};

verus! {

/// Validates that a path is a block device that can be read: `accessible` is
/// whether its metadata could be had, `is_block_device` what they say, and
/// `readable` whether it could be opened.
pub fn validate_block_device(
    path: &str,
    accessible: bool,
    is_block_device: bool,
    readable: bool,
) -> (checked: Result<(), String>)
    ensures
        match checked {
            Ok(_) => accessible && is_block_device && readable,
            Err(message) => if !accessible {
                message@ == "Cannot access "@ + path@
            } else if !is_block_device {
                message@ == path@ + " is not a block device"@
            } else {
                !readable && message@ == "Cannot read "@ + path@
            },
        },
{
    if !accessible {
        Err(joined("Cannot access ", path))
    } else if !is_block_device {
        Err(joined(path, " is not a block device"))
    } else if !readable {
        Err(joined("Cannot read ", path))
    } else {
        Ok(())
    }
}

/// Decides the size of a volume.
pub fn get_size(metadata_len: Option<u64>, end: Option<u64>) -> (size: Option<u64>)
    ensures
        size == size_of_device(metadata_len, end),
{
    crate::io::get_size(metadata_len, end)
}

/// The SHA-256 digest of some bytes.
pub uninterp spec fn sha256(bytes: Seq<u8>) -> Seq<u8>;

/// `sha2::Sha256::digest`: the SHA-256 digest of the bytes.
#[verifier::external_body]
fn sha256_digest(bytes: &Vec<u8>) -> (digest: [u8; 32])
    ensures
        digest@ == sha256(bytes@),
{
    <sha2::Sha256 as sha2::Digest>::digest(bytes).into()
}

/// The hash of the superblock in what was read from the start of a volume, if that is
/// long enough.
pub fn hash_superblock(head: &Vec<u8>) -> (hash: Option<[u8; 32]>)
    ensures
        hash is Some <==> head@.len() >= SUPERBLOCK_SIZE,
        hash matches Some(h) ==> h@ == sha256(head@.take(SUPERBLOCK_SIZE as int)),
        hash is Some <==> head@.len() >= 4096,
        hash matches Some(h) ==> h@ == sha256(head@.take(4096)),
{
    match read_superblock(head) {
        Some(superblock) => Some(sha256_digest(&superblock)),
        None => None,
    }
}

/// Whether two hashes are equal.
pub fn same_hash(a: &[u8; 32], b: &[u8; 32]) -> (same: bool)
    ensures
        same == (a@ == b@),
{
    let mut i: usize = 0;
    while i < 32
        invariant
            i <= 32,
            forall|j: int| 0 <= j < i ==> a@[j] == b@[j],
        decreases 32 - i,
    {
        if a[i] != b[i] {
            return false;
        }
        i = i + 1;
    }
    assert(a@ =~= b@);
    true
}

/// Plans the copy of a whole volume of `size` bytes.
pub fn full_copy(size: u64) -> (plan: CopyPlan)
    requires
        size <= u64::MAX - 4095,
    ensures
        plan_carries(plan, slices(0, aligned_up(size as nat), FULL_COPY_CHUNK_SIZE as nat)),
        plan.sq_depth == FULL_COPY_SQ_DEPTH,
        plan.slots_per_ring == FULL_COPY_SLOTS_PER_RING,
        plan.slot_size == FULL_COPY_CHUNK_SIZE,
        plan.total_bytes == size,
        plan.runnable(),
        plan.aligned(),
{
    crate::io::full_copy(size)
}

/// Plans the copy of changed ranges.
pub fn copy_blocks(blocks: &Vec<BlockRange>, granularity: u64) -> (plan: Option<CopyPlan>)
    requires
        blocks_fit(blocks@, granularity),
    ensures
        plan is None <==> blocks@.len() == 0,
        plan matches Some(p) ==> {
            &&& plan_carries(p, prepared(blocks@, granularity as nat))
            &&& p.sq_depth == BLOCKS_COPY_SQ_DEPTH
            &&& p.slots_per_ring == BLOCKS_COPY_SLOTS_PER_RING
            &&& p.slot_size == blocks_slot_size(granularity)
            &&& p.total_bytes == block_count(blocks@) * granularity
            &&& p.runnable()
        },
{
    crate::io::copy_blocks(blocks, granularity)
}

/// Requires `mkfs.ext4`; `available` is whether it was found.
pub fn check_mkfs_ext4(available: bool) -> (checked: Result<(), String>)
    ensures
        match checked {
            Ok(_) => available,
            Err(m) => !available && m@ == missing_words(
                "mkfs.ext4"@,
                "e2fsprogs (e.g., apt install e2fsprogs)"@,
            ),
        },
{
    require("mkfs.ext4", "e2fsprogs (e.g., apt install e2fsprogs)", available)
}

/// Creates an ext4 filesystem with blocks of 4096 bytes, the label `schelk` and a zeroed
/// UUID, so that the same volume always gets the same filesystem.
pub fn mkfs_ext4(path: &str) -> (command: Invocation)
    ensures
        command.runs(
            "mkfs.ext4"@,
            seq![
                "-F"@,
                "-b"@,
                "4096"@,
                "-L"@,
                "schelk"@,
                "-U"@,
                "00000000-0000-0000-0000-000000000000"@,
                path@,
            ],
        ),
{
    let args = args_of(
        &[
            "-F",
            "-b",
            "4096",
            "-L",
            "schelk",
            "-U",
            "00000000-0000-0000-0000-000000000000",
            path,
        ],
    );
    assert(texts(args@) =~= seq![
        "-F"@,
        "-b"@,
        "4096"@,
        "-L"@,
        "schelk"@,
        "-U"@,
        "00000000-0000-0000-0000-000000000000"@,
        path@,
    ]);
    Invocation { program: "mkfs.ext4".to_owned(), args }
}

/// The text for a filesystem that could not be created.
pub fn mkfs_failed(path: &str, stderr: &str) -> (s: String)
    ensures
        s@ == "mkfs.ext4 failed on "@ + path@ + ":\n"@ + trimmed(stderr@),
{
    let mut s = joined("mkfs.ext4 failed on ", path);
    s.append(":\n");
    s.append(trim(stderr).as_str());
    s
}

} // verus!

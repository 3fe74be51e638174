//! The size that the metadata of dm-era needs on the RAM disk.
//!
//! The era array holds one 32-bit entry per tracked block, 1018 of them in a
//! metadata block of 4096 bytes. Its index adds about 4 percent, and the superblock,
//! the space map and the transaction buffers about 10 blocks.

use vstd::prelude::*;
use vstd::string::*;
use vstd::arithmetic::div_mod::*;
use crate::error::Error;
use crate::text::{decimal, decimal_text};

verus! {

/// Fixed overhead of the recommended size.
pub const FIXED_OVERHEAD: u64 = 1048576;

/// The number of metadata blocks of the era array.
pub open spec fn era_array_blocks(volume_size: nat, granularity: nat) -> nat {
    (volume_size / granularity + 1017) / 1018
}

/// The least size, in bytes.
pub open spec fn min_size(volume_size: nat, granularity: nat) -> nat {
    let blocks = era_array_blocks(volume_size, granularity);
    (blocks + blocks * 4 / 100 + 10) * 4096
}

/// The recommended size, in bytes: 15 percent and a fixed overhead more.
pub open spec fn ideal_size(volume_size: nat, granularity: nat) -> nat {
    min_size(volume_size, granularity) * 115 / 100 + FIXED_OVERHEAD as nat
}

/// The size below which a RAM disk is refused: 10 percent above the least size.
pub open spec fn buffered_size(volume_size: nat, granularity: nat) -> nat {
    min_size(volume_size, granularity) * 110 / 100
}

/// Whether the computation stays within 64 bits.
pub open spec fn sizes_fit(volume_size: nat, granularity: nat) -> bool {
    granularity > 0 && min_size(volume_size, granularity) * 115 <= u64::MAX
}

/// For every volume and every granularity of at least one sector the computation
/// stays within 64 bits.
pub proof fn law_sizes_fit(volume_size: u64, granularity: u64)
    requires
        granularity >= 512,
    ensures
        sizes_fit(volume_size as nat, granularity as nat),
{
    let q = volume_size as int / granularity as int;
    lemma_div_is_ordered_by_denominator(volume_size as int, 512, granularity as int);
    assert(q <= volume_size as int / 512);
    assert(volume_size as int / 512 <= 0x7f_ffff_ffff_ffff);
}

/// Tests whether the computation stays within 64 bits.
pub fn check_sizes_fit(volume_size: u64, granularity: u64) -> (fit: bool)
    ensures
        fit == sizes_fit(volume_size as nat, granularity as nat),
{
    if granularity == 0 {
        return false;
    }
    let nr_blocks: u128 = (volume_size / granularity) as u128;
    let blocks: u128 = (nr_blocks + 1017) / 1018;
    let min_size: u128 = (blocks + blocks * 4 / 100 + 10) * 4096;
    min_size * 115 <= u64::MAX as u128
}

/// The least and the recommended size of the RAM disk, in bytes.
pub fn calculate_required_sizes(volume_size: u64, granularity: u64) -> (sizes: (u64, u64))
    requires
        sizes_fit(volume_size as nat, granularity as nat),
    ensures
        sizes.0 == min_size(volume_size as nat, granularity as nat),
        sizes.1 == ideal_size(volume_size as nat, granularity as nat),
{
    let nr_blocks: u64 = volume_size / granularity;
    let era_array_blocks: u64 = (nr_blocks + 1017) / 1018;
    let btree_overhead_blocks: u64 = (era_array_blocks * 4) / 100;
    let min_blocks: u64 = era_array_blocks + btree_overhead_blocks + 10;
    let min_size: u64 = min_blocks * 4096;
    let ideal_size: u64 = (min_size * 115) / 100 + FIXED_OVERHEAD;
    (min_size, ideal_size)
}

/// The warning that is due for a RAM disk that leaves little headroom.
pub open spec fn tight_words(actual: u64, ideal: nat) -> Seq<char> {
    "Warning: RAM disk size ("@ + decimal(actual as nat) + " bytes) is less than ideal ("@
        + decimal(ideal) + " bytes). This may work but leaves little headroom."@
}

/// Validates the size of the RAM disk for a volume and a granularity. The result is
/// an error where it is too small, and a warning where it is less than recommended.
pub fn validate_size(actual_size: u64, volume_size: u64, granularity: u64) -> (checked: Result<
    Option<String>,
    Error,
>)
    requires
        sizes_fit(volume_size as nat, granularity as nat),
    ensures
        match checked {
            Err(e) => actual_size < buffered_size(volume_size as nat, granularity as nat) && e == (
            Error::RamdiskTooSmall {
                required: buffered_size(volume_size as nat, granularity as nat) as u64,
                actual: actual_size,
            }),
            Ok(warning) => {
                &&& actual_size >= buffered_size(volume_size as nat, granularity as nat)
                &&& warning is Some <==> actual_size < ideal_size(
                    volume_size as nat,
                    granularity as nat,
                )
                &&& warning matches Some(w) ==> w@ == tight_words(
                    actual_size,
                    ideal_size(volume_size as nat, granularity as nat),
                )
            },
        },
{
    let (min_size, ideal_size) = calculate_required_sizes(volume_size, granularity);
    let required: u64 = (min_size * 110) / 100;
    if actual_size < required {
        return Err(Error::RamdiskTooSmall { required, actual: actual_size });
    }
    if actual_size < ideal_size {
        let mut w = "Warning: RAM disk size (".to_owned();
        w.append(decimal_text(actual_size).as_str());
        w.append(" bytes) is less than ideal (");
        w.append(decimal_text(ideal_size).as_str());
        w.append(" bytes). This may work but leaves little headroom.");
        return Ok(Some(w));
    }
    Ok(None)
}

/// A RAM disk of the recommended size is accepted, and one that is accepted has at least
/// the least size.
pub proof fn law_recommended_size_is_accepted(volume_size: nat, granularity: nat)
    ensures
        min_size(volume_size, granularity) <= buffered_size(volume_size, granularity)
            <= ideal_size(volume_size, granularity),
{
}

/// A larger volume never needs a smaller RAM disk.
pub proof fn law_larger_volumes_need_no_less(a: nat, b: nat, granularity: nat)
    requires
        granularity > 0,
        a <= b,
    ensures
        min_size(a, granularity) <= min_size(b, granularity),
        buffered_size(a, granularity) <= buffered_size(b, granularity),
        ideal_size(a, granularity) <= ideal_size(b, granularity),
{
    lemma_div_is_ordered(a as int, b as int, granularity as int);
}

/// The least size: `whole` blocks fit in the volume, `array` metadata blocks of 1018
/// entries are just enough for them, `index` is 4 percent of those, and 10 more are needed,
/// each of 4096 bytes.
pub proof fn law_least_size_holds_an_entry_per_block(
    volume_size: nat,
    granularity: nat,
    whole: nat,
    array: nat,
    index: nat,
)
    requires
        granularity * whole <= volume_size < granularity * whole + granularity,
        whole <= 1018 * array < whole + 1018,
        100 * index <= 4 * array < 100 * index + 100,
    ensures
        min_size(volume_size, granularity) == 4096 * (array + index + 10),
{
    let rest = volume_size - granularity * whole;
    vstd::arithmetic::mul::lemma_mul_is_commutative(granularity as int, whole as int);
    lemma_fundamental_div_mod_converse(
        volume_size as int,
        granularity as int,
        whole as int,
        rest,
    );
}

/// The size that is required is 110 percent of the least one, and the recommended one is
/// 115 percent of it and one mebibyte, each rounded down to a byte.
pub proof fn law_margins_above_the_least_size(volume_size: nat, granularity: nat)
    ensures
        ({
            let least = min_size(volume_size, granularity);
            let required = buffered_size(volume_size, granularity);
            let ideal = ideal_size(volume_size, granularity) - 1048576;
            &&& 100 * required <= 110 * least < 100 * required + 100
            &&& 100 * ideal <= 115 * least < 100 * ideal + 100
        }),
{
}

/// The sizes cannot be computed only for a granularity of zero, and where 115 times the least
/// size does not fit in 64 bits.
pub proof fn law_sizes_fit_in_64_bits(volume_size: nat, granularity: nat)
    ensures
        sizes_fit(volume_size, granularity) <==> granularity > 0 && 115 * min_size(
            volume_size,
            granularity,
        ) <= 0xffff_ffff_ffff_ffff,
{
}

/// The warning gives the size of the RAM disk and the recommended one.
pub proof fn law_the_warning_gives_both_sizes(actual: u64, ideal: nat)
    ensures
        tight_words(actual, ideal) == "Warning: RAM disk size ("@ + decimal(actual as nat)
            + " bytes) is less than ideal ("@ + decimal(ideal)
            + " bytes). This may work but leaves little headroom."@,
{
}

} // verus!

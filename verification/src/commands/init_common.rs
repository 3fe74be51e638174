//! Checks that every way of initializing makes.

use vstd::prelude::*;
use vstd::string::*;
use crate::error::{DevicePair, Error};
use crate::text::{components, components_of, same_text, texts};

verus! {

/// Whether dm-era can track blocks of this size.
pub open spec fn granularity_ok(granularity: u64) -> bool {
    granularity > 0 && granularity % 512 == 0
}

/// Validates the granularity: greater than zero and a multiple of a sector.
pub fn validate_granularity(granularity: u64) -> (checked: Result<(), Error>)
    ensures
        match checked {
            Ok(_) => granularity_ok(granularity),
            Err(e) => if granularity == 0 {
                e == Error::ZeroGranularity
            } else {
                granularity % 512 != 0 && e == (Error::UnevenGranularity { granularity })
            },
        },
{
    if granularity == 0 {
        return Err(Error::ZeroGranularity);
    }
    if granularity % 512 != 0 {
        return Err(Error::UnevenGranularity { granularity });
    }
    Ok(())
}

fn same_path(a: &str, b: &str) -> (same: bool)
    ensures
        same == (components(a@) == components(b@)),
{
    let x = components_of(a);
    let y = components_of(b);
    assert(texts(x@).len() == x@.len() && texts(y@).len() == y@.len());
    if x.len() != y.len() {
        return false;
    }
    let mut i: usize = 0;
    while i < x.len()
        invariant
            texts(x@) == components(a@),
            texts(y@) == components(b@),
            x@.len() == y@.len(),
            i <= x@.len(),
            forall|j: int| 0 <= j < i ==> texts(x@)[j] == texts(y@)[j],
        decreases x@.len() - i,
    {
        assert(texts(x@)[i as int] == x@[i as int]@ && texts(y@)[i as int] == y@[i as int]@);
        if !same_text(x[i].as_str(), y[i].as_str()) {
            return false;
        }
        i = i + 1;
    }
    assert(texts(x@) =~= texts(y@));
    true
}

/// The three managed devices, as they were given and as they resolve.
#[derive(Debug)]
pub struct Devices {
    pub virgin: String,
    pub scratch: String,
    pub ramdisk: String,
    pub virgin_resolved: String,
    pub scratch_resolved: String,
    pub ramdisk_resolved: String,
}

/// Whether two resolved paths are one.
pub open spec fn one_path(a: String, b: String) -> bool {
    components(a@) == components(b@)
}

/// The error for devices of which two resolve to one path.
pub open spec fn alias_error(d: Devices) -> Option<Error> {
    if one_path(d.virgin_resolved, d.scratch_resolved) {
        Some(
            Error::SameDevice {
                pair: DevicePair::VirginScratch,
                first: d.virgin,
                second: d.scratch,
            },
        )
    } else if one_path(d.virgin_resolved, d.ramdisk_resolved) {
        Some(
            Error::SameDevice {
                pair: DevicePair::VirginRamdisk,
                first: d.virgin,
                second: d.ramdisk,
            },
        )
    } else if one_path(d.scratch_resolved, d.ramdisk_resolved) {
        Some(
            Error::SameDevice {
                pair: DevicePair::ScratchRamdisk,
                first: d.scratch,
                second: d.ramdisk,
            },
        )
    } else {
        None
    }
}

/// Rejects devices of which two resolve to one path.
pub fn reject_device_aliases(d: &Devices) -> (checked: Result<(), Error>)
    ensures
        match alias_error(*d) {
            Some(e) => checked == Err::<(), Error>(e),
            None => checked is Ok,
        },
{
    if same_path(d.virgin_resolved.as_str(), d.scratch_resolved.as_str()) {
        return Err(
            Error::SameDevice {
                pair: DevicePair::VirginScratch,
                first: d.virgin.clone(),
                second: d.scratch.clone(),
            },
        );
    }
    if same_path(d.virgin_resolved.as_str(), d.ramdisk_resolved.as_str()) {
        return Err(
            Error::SameDevice {
                pair: DevicePair::VirginRamdisk,
                first: d.virgin.clone(),
                second: d.ramdisk.clone(),
            },
        );
    }
    if same_path(d.scratch_resolved.as_str(), d.ramdisk_resolved.as_str()) {
        return Err(
            Error::SameDevice {
                pair: DevicePair::ScratchRamdisk,
                first: d.scratch.clone(),
                second: d.ramdisk.clone(),
            },
        );
    }
    Ok(())
}

/// Devices are refused exactly where two of them resolve to one path, and the error names
/// two such devices as they were given.
pub proof fn law_aliases_are_refused(d: Devices)
    ensures
        ({
            let virgin = components(d.virgin_resolved@);
            let scratch = components(d.scratch_resolved@);
            let ramdisk = components(d.ramdisk_resolved@);
            &&& alias_error(d) is None <==> virgin != scratch && virgin != ramdisk && scratch
                != ramdisk
            &&& alias_error(d) matches Some(error) ==> {
                ||| virgin == scratch && error == (Error::SameDevice {
                    pair: DevicePair::VirginScratch,
                    first: d.virgin,
                    second: d.scratch,
                })
                ||| virgin == ramdisk && error == (Error::SameDevice {
                    pair: DevicePair::VirginRamdisk,
                    first: d.virgin,
                    second: d.ramdisk,
                })
                ||| scratch == ramdisk && error == (Error::SameDevice {
                    pair: DevicePair::ScratchRamdisk,
                    first: d.scratch,
                    second: d.ramdisk,
                })
            }
        }),
{
}

/// A granularity is accepted exactly where it is a positive number of whole sectors.
pub proof fn law_granularities_are_whole_sectors(sectors: nat, granularity: u64)
    ensures
        granularity == 512 * sectors && sectors > 0 ==> granularity_ok(granularity),
        granularity_ok(granularity) ==> granularity >= 512 && granularity == 512 * (granularity
            / 512),
{
}

} // verus!

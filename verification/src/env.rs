//! The environment that the commands need.

use vstd::prelude::*;
use crate::error::Error;

verus! {

/// Requires that the effective user is root.
pub fn require_root(euid: u32) -> (checked: Result<(), Error>)
    ensures
        match checked {
            Ok(_) => euid == 0,
            Err(e) => euid != 0 && e == Error::NotRoot,
        },
{
    if euid == 0 {
        Ok(())
    } else {
        Err(Error::NotRoot)
    }
}

} // verus!

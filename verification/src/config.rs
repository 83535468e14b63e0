//! Defaults of the configuration.

use vstd::prelude::*;

verus! {

/// The volume of a configuration that names none.
pub fn default_volume() -> (v: u8)
    ensures
        v == 50,
{
    50
}

} // verus!

//! Sizing of headings drawn as images.
use vstd::prelude::*;

verus! {

/// Display rows per heading tier: three for H1, two for H2, one otherwise.
pub fn display_rows_for_tier(tier: u8) -> (rows: u16)
    ensures
        rows == (if tier == 1 { 3u16 } else if tier == 2 { 2u16 } else { 1u16 }),
{
    match tier {
        1 => 3,
        2 => 2,
        _ => 1,
    }
}

} // verus!

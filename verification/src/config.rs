//! The integer normative defaults of the kernel.

use vstd::prelude::*;

verus! {

/// Subdivision cap: the maximum recursion depth.
pub const DEPTH_MAX: u32 = 40;

/// Tier-2 direction retries: how many alternative continuation directions a
/// chart may attempt.
pub const KA: u32 = 4;

/// Max deck traversals per edge: the ceiling on how many period crossings one
/// edge may walk.
pub const DECK_MAX: i32 = 8;

} // verus!

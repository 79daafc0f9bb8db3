//! Limits fixed at build time.

use vstd::prelude::*;

verus! {

/// Most records a result list shows, and most records the recently-used list
/// keeps in storage.
pub const MAX_RESULTS: usize = 30;

/// Longest name, in bytes, that a result row shows in full.
pub const MAX_EMOJI_NAME: usize = 30;

} // verus!

//! Engine-wide limits and the server-side clamping of caller-supplied bounds.
use vstd::prelude::*;

verus! {

/// Upper bound on the `limit` argument of a name search.
pub const NAME_LIMIT_MAX: usize = 100;

/// Upper bound on the `max_results` argument of a content search.
pub const CONTENT_RESULTS_MAX: usize = 1000;

/// Matches collected in one file before the rest of the file is ignored.
pub const MAX_MATCHES_PER_FILE: usize = 50;

/// Hard cap on candidates visited by one walk of the tree.
pub const MAX_WALK_ENTRIES: usize = 10000;

/// Candidates gathered between two scoring passes of a streaming name search.
pub const NAME_BATCH_SIZE: usize = 100;

/// Files-with-matches gathered before a content-search batch is flushed.
pub const CONTENT_BATCH_SIZE: usize = 10;

/// Entries returned synchronously by an enumeration, and the size of each
/// streamed chunk that follows.
pub const ENUMERATION_PAGE_SIZE: usize = 100;

/// What a caller-supplied bound becomes after server-side clamping.
pub open spec fn spec_clamp_limit(limit: usize, upper: usize) -> usize {
    if limit == 0 {
        1
    } else if limit > upper {
        upper
    } else {
        limit
    }
}

/// Clamp a caller-supplied bound into `[1, upper]`; zero becomes one and
/// anything above `upper` becomes `upper`.
pub fn clamp_limit(limit: usize, upper: usize) -> (r: usize)
    requires
        upper >= 1,
    ensures
        r == spec_clamp_limit(limit, upper),
        1 <= r <= upper,
{
    if limit == 0 {
        1
    } else if limit > upper {
        upper
    } else {
        limit
    }
}

} // verus!

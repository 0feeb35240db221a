//! Pre-dispatch validation: the 1-based inclusive page range a document
//! run covers must be checked before any job is launched.

use vstd::prelude::*;

use crate::ConfigError;

verus! {

/// The effective 1-based first page: the explicit bound where given,
/// else page 1.
pub open spec fn effective_start(page_start: Option<usize>) -> usize {
    if page_start is Some {
        page_start->Some_0
    } else {
        1usize
    }
}

/// The effective 1-based last page: the explicit bound where given, else
/// the document's page count.
pub open spec fn effective_end(page_end: Option<usize>, page_count: usize) -> usize {
    if page_end is Some {
        page_end->Some_0
    } else {
        page_count
    }
}

/// The first fault of the effective range, in the order the faults are
/// checked: a zero first page, then an end before the start, then an end
/// beyond the document.
pub open spec fn range_fault(s: usize, e: usize, page_count: usize) -> Option<ConfigError> {
    if s == 0 {
        Some(ConfigError::ZeroPageStart)
    } else if e < s {
        Some(ConfigError::PageEndBeforeStart)
    } else if e > page_count {
        Some(ConfigError::PageEndBeyondCount)
    } else {
        None
    }
}

/// Validates the requested page range against the document's page count,
/// before any job is launched: accepted exactly when the effective range
/// lies within page 1 through the page count, and rejected with the
/// first fault otherwise.
pub fn validate_page_range(
    page_start: Option<usize>,
    page_end: Option<usize>,
    page_count: usize,
) -> (r: Result<(usize, usize), ConfigError>)
    ensures
        r is Ok <==> 1 <= effective_start(page_start) && effective_start(page_start)
            <= effective_end(page_end, page_count) && effective_end(page_end, page_count)
            <= page_count,
        r matches Ok(range) ==> range == (
            effective_start(page_start),
            effective_end(page_end, page_count),
        ),
        r matches Err(fault) ==> Some(fault) == range_fault(
            effective_start(page_start),
            effective_end(page_end, page_count),
            page_count,
        ),
{
    let s = match page_start {
        Some(v) => v,
        None => 1,
    };
    let e = match page_end {
        Some(v) => v,
        None => page_count,
    };
    if s == 0 {
        Err(ConfigError::ZeroPageStart)
    } else if e < s {
        Err(ConfigError::PageEndBeforeStart)
    } else if e > page_count {
        Err(ConfigError::PageEndBeyondCount)
    } else {
        Ok((s, e))
    }
}

/// The number of pages of a validated inclusive range, as shown by the
/// progress indicator.
pub fn range_page_total(start: usize, end: usize) -> (n: usize)
    requires
        1 <= start <= end,
    ensures
        n == end - start + 1,
{
    end - start + 1
}

} // verus!

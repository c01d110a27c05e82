//! Integer scaffolding around the FFT cross-correlator: the search window,
//! the peak-to-delay conversion, and the offset-bound conversion.  The
//! floating-point correlation itself runs outside the library; these
//! functions pin down every integer decision around it.

use crate::models::US_PER_SAMPLE;
use crate::stitch::spec_round_div;
use vstd::prelude::*;

verus! {

/// A search bound in microseconds converted to analysis samples, rounded
/// to the nearest sample: how far from the center the peak search may
/// wander.
pub open spec fn spec_max_offset_samples(max_offset_us: int) -> int {
    spec_round_div(max_offset_us, US_PER_SAMPLE as int)
}

/// Executable conversion of the search bound.
pub fn max_offset_samples(max_offset_us: i64) -> (r: u64)
    requires
        max_offset_us >= 0,
    ensures
        r == spec_max_offset_samples(max_offset_us as int),
{
    ((2 * (max_offset_us as u128) + (US_PER_SAMPLE as u128)) / (2 * (US_PER_SAMPLE as u128))) as u64
}

/// The index range `[lo, hi)` of a bounded peak search in a correlation of
/// length `n`: at most `k` indices on either side of `center`, clipped to
/// the correlation.
pub fn search_window(center: usize, k: u64, n: usize) -> (r: (usize, usize))
    requires
        center < n,
    ensures
        r.0 <= center < r.1 <= n,
        r.0 == (if center as int >= k as int {
            center - k
        } else {
            0
        }),
        r.1 == (if center as int + k as int + 1 <= n as int {
            center + k + 1
        } else {
            n as int
        }),
{
    let lo: usize = if (center as u128) >= (k as u128) {
        center - (k as usize)
    } else {
        0
    };
    let hi: usize = if (center as u128) + (k as u128) + 1 <= (n as u128) {
        center + (k as usize) + 1
    } else {
        n
    };
    (lo, hi)
}

/// The signed delay named by a correlation peak: `peak - (target_len - 1)`.
/// A positive delay means the target lags the reference.
pub fn delay_from_peak(peak_idx: usize, target_len: usize) -> (r: i128)
    requires
        target_len >= 1,
    ensures
        r == peak_idx as int - (target_len as int - 1),
{
    peak_idx as i128 - (target_len as i128 - 1)
}

} // verus!

use vstd::prelude::*;

verus! {

/// Length of one beat-counting window, in seconds.
pub const BEAT_WINDOW_SECONDS: u16 = 10;

/// Factor from beats in one window to beats per minute.
pub const BPM_SCALE: u16 = 60 / BEAT_WINDOW_SECONDS;

/// Beats per minute for `count` edges seen during one window, or `None` when
/// the rate does not fit in sixteen bits.
pub fn beats_per_minute(count: u16) -> (r: Option<u16>)
    ensures
        count as int * BPM_SCALE as int <= u16::MAX ==> r == Some((count * BPM_SCALE) as u16),
        count as int * BPM_SCALE as int > u16::MAX ==> r is None,
{
    count.checked_mul(BPM_SCALE)
}

} // verus!

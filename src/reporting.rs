//! Small reporting rules: ageing totals and variance severity.
use vstd::prelude::*;
use crate::standards::aging_bucket_spec;

verus! {

/// Outstanding amounts by ageing bucket.
#[derive(Clone, Copy, Debug, PartialEq, Eq, Structural)]
pub struct AgingBucketTotals {
    pub current: i128,
    pub days_1_30: i128,
    pub days_31_60: i128,
    pub days_61_90: i128,
    pub days_90_plus: i128,
}

/// Largest magnitude of a bucket total.
pub const MAX_BUCKET_TOTAL: i128 = 1000000000000000000000000000000i128;

/// Adds `amount` to the bucket named `bucket`; an unknown name counts as
/// over ninety days.
pub fn accumulate_aging_bucket(totals: &mut AgingBucketTotals, bucket: &str, amount: i128)
    requires
        -MAX_BUCKET_TOTAL <= amount <= MAX_BUCKET_TOTAL,
        -MAX_BUCKET_TOTAL <= old(totals).current <= MAX_BUCKET_TOTAL,
        -MAX_BUCKET_TOTAL <= old(totals).days_1_30 <= MAX_BUCKET_TOTAL,
        -MAX_BUCKET_TOTAL <= old(totals).days_31_60 <= MAX_BUCKET_TOTAL,
        -MAX_BUCKET_TOTAL <= old(totals).days_61_90 <= MAX_BUCKET_TOTAL,
        -MAX_BUCKET_TOTAL <= old(totals).days_90_plus <= MAX_BUCKET_TOTAL,
    ensures
        *final(totals) == if bucket@ == aging_bucket_spec(0) {
            AgingBucketTotals { current: (old(totals).current + amount) as i128, ..*old(totals) }
        } else if bucket@ == aging_bucket_spec(1) {
            AgingBucketTotals { days_1_30: (old(totals).days_1_30 + amount) as i128, ..*old(totals) }
        } else if bucket@ == aging_bucket_spec(31) {
            AgingBucketTotals { days_31_60: (old(totals).days_31_60 + amount) as i128, ..*old(totals) }
        } else if bucket@ == aging_bucket_spec(61) {
            AgingBucketTotals { days_61_90: (old(totals).days_61_90 + amount) as i128, ..*old(totals) }
        } else {
            AgingBucketTotals { days_90_plus: (old(totals).days_90_plus + amount) as i128, ..*old(totals) }
        },
{
    let b = String::from_str(bucket);
    if crate::text::text_is(&b, "CURRENT") {
        totals.current = totals.current + amount;
    } else if crate::text::text_is(&b, "1_30") {
        totals.days_1_30 = totals.days_1_30 + amount;
    } else if crate::text::text_is(&b, "31_60") {
        totals.days_31_60 = totals.days_31_60 + amount;
    } else if crate::text::text_is(&b, "61_90") {
        totals.days_61_90 = totals.days_61_90 + amount;
    } else {
        totals.days_90_plus = totals.days_90_plus + amount;
    }
}

/// Severity of a variance against its thresholds.
#[derive(Clone, Copy, Debug, PartialEq, Eq, Structural)]
pub enum VarianceSeverity {
    OnTrack,
    Warning,
    Breach,
}

/// BREACH at or above the critical threshold, WARNING at or above the
/// warning one, else ON_TRACK.
pub fn classify_variance_severity(variance_pct: i128, warning_threshold_pct: i128, critical_threshold_pct: i128) -> (r: VarianceSeverity)
    ensures
        r == if variance_pct >= critical_threshold_pct {
            VarianceSeverity::Breach
        } else if variance_pct >= warning_threshold_pct {
            VarianceSeverity::Warning
        } else {
            VarianceSeverity::OnTrack
        },
{
    if variance_pct >= critical_threshold_pct {
        VarianceSeverity::Breach
    } else if variance_pct >= warning_threshold_pct {
        VarianceSeverity::Warning
    } else {
        VarianceSeverity::OnTrack
    }
}

/// A report period, in Unix seconds, is valid unless both ends are given and
/// the end is not after the start.
pub fn validate_period_bounds(period_start: Option<i64>, period_end: Option<i64>) -> (r: bool)
    ensures
        r == !(period_start is Some && period_end is Some && period_end.unwrap() <= period_start.unwrap()),
{
    match (period_start, period_end) {
        (Some(start), Some(end)) => end > start,
        _ => true,
    }
}

/// A planning period, in day numbers, may end on the day it starts but not before.
pub fn validate_period_range(period_start_day: i64, period_end_day: i64) -> (r: bool)
    ensures
        r == (period_end_day >= period_start_day),
{
    period_end_day >= period_start_day
}

} // verus!

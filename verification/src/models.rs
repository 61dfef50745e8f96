//! The dashboard statistics and the written form of amounts.

use vstd::prelude::*;
use crate::amount::{magnitude, magnitude_of, reads_as_amount, xmr_string, xmr_text};
use crate::laws::law_format_xmr_writes_the_amount;

verus! {

/// Invoice counts and paid totals shown on the dashboard.
#[derive(Debug)]
pub struct DashboardStats {
    pub total_invoices: i64,
    pub paid_count: i64,
    pub pending_count: i64,
    pub partial_count: i64,
    pub expired_count: i64,
    pub total_received_atomic: i64,
    pub total_expected_atomic: i64,
}

impl Default for DashboardStats {
    fn default() -> (r: Self)
        ensures
            r.total_invoices == 0,
            r.paid_count == 0,
            r.pending_count == 0,
            r.partial_count == 0,
            r.expired_count == 0,
            r.total_received_atomic == 0,
            r.total_expected_atomic == 0,
    {
        DashboardStats {
            total_invoices: 0,
            paid_count: 0,
            pending_count: 0,
            partial_count: 0,
            expired_count: 0,
            total_received_atomic: 0,
            total_expected_atomic: 0,
        }
    }
}

/// A sum that the database reports as `NULL` counts as zero.
pub open spec fn sum_or_zero(sum: Option<i64>) -> i64 {
    match sum {
        Some(v) => v,
        None => 0,
    }
}

impl DashboardStats {
    /// The statistics from the counts and the paid sums that the database reported.
    pub fn from_counts(
        total_invoices: i64,
        paid_count: i64,
        pending_count: i64,
        partial_count: i64,
        expired_count: i64,
        received_sum: Option<i64>,
        expected_sum: Option<i64>,
    ) -> (r: Self)
        ensures
            r.total_invoices == total_invoices,
            r.paid_count == paid_count,
            r.pending_count == pending_count,
            r.partial_count == partial_count,
            r.expired_count == expired_count,
            r.total_received_atomic == sum_or_zero(received_sum),
            r.total_expected_atomic == sum_or_zero(expected_sum),
    {
        let total_received_atomic: i64 = match received_sum {
            Some(v) => v,
            None => 0,
        };
        let total_expected_atomic: i64 = match expected_sum {
            Some(v) => v,
            None => 0,
        };
        DashboardStats {
            total_invoices,
            paid_count,
            pending_count,
            partial_count,
            expired_count,
            total_received_atomic,
            total_expected_atomic,
        }
    }

    /// The received total in XMR.
    pub fn total_received_xmr(&self) -> (r: String)
        ensures
            r@ == xmr_text(magnitude(self.total_received_atomic)),
    {
        format_xmr(self.total_received_atomic)
    }

    /// The expected total in XMR.
    pub fn total_expected_xmr(&self) -> (r: String)
        ensures
            r@ == xmr_text(magnitude(self.total_expected_atomic)),
    {
        format_xmr(self.total_expected_atomic)
    }
}

/// An amount of atomic units in XMR, short form, of its magnitude: the sign is dropped.
pub fn format_xmr(atomic: i64) -> (r: String)
    ensures
        r@ == xmr_text(magnitude(atomic)),
        atomic >= 0 ==> reads_as_amount(r@, atomic as int),
        atomic < 0 ==> reads_as_amount(r@, -(atomic as int)),
{
    proof {
        law_format_xmr_writes_the_amount(atomic);
    }
    xmr_string(magnitude_of(atomic))
}

} // verus!

//! Why a payment was refunded.

use vstd::prelude::*;

verus! {

/// The details of a refund.
#[derive(Debug)]
pub struct RefundDetails {
    pub code: i32,
    pub reason: String,
    pub author: String,
}

} // verus!

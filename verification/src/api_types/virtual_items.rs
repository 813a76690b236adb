//! The virtual items of a purchase notification.

use vstd::prelude::*;

verus! {

/// A purchased virtual item and its quantity.
#[derive(Debug)]
pub struct VirtualItem {
    pub sku: String,
    pub amount: i32,
}

} // verus!

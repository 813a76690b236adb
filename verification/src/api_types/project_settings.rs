//! The project that a notification concerns.

use vstd::prelude::*;

verus! {

/// The project and merchant of a notification.
#[derive(Debug)]
pub struct ProjectSettings {
    pub project_id: i32,
    pub merchant_id: i32,
}

} // verus!

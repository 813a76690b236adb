//! The data exchanged with the payment API.

pub mod error;
pub mod helpers;
pub mod project_settings;
pub mod refund_details;
pub mod token_request_body;
pub mod virtual_items;

//! Server-side logic for an Xsolla payment integration: webhook
//! authentication, request signatures, and the wire types of the API.

pub mod text;
pub mod json;
pub mod signature;
pub mod address;
pub mod callback;
pub mod token;
pub mod pages;
pub mod api_types;
pub mod messages;

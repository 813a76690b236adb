//! The body of a payment token request.

use vstd::prelude::*;

use crate::api_types::helpers::Currency;

verus! {

/// A virtual item to sell.
#[derive(Debug)]
pub struct VirtualItem {
    pub amount: i32,
    pub available_groups: Vec<String>,
    pub sku: String,
}

/// Virtual items to sell, in one currency.
#[derive(Debug)]
pub struct VirtualItems {
    pub currency: Currency,
    pub items: Vec<VirtualItem>,
}

/// Virtual currency to sell.
#[derive(Debug)]
pub struct VirtualCurrency {
    pub currency: Currency,
    pub quantity: i32,
}

/// What is sold; absent parts are left out of the request.
#[derive(Debug)]
pub struct PurchaseInfo {
    pub virtual_items: Option<VirtualItems>,
    pub virtual_currency: Option<VirtualCurrency>,
}

/// Whether payments are real or made in the sandbox.
#[derive(PartialEq, Eq, Structural, Clone, Copy, Debug)]
pub enum SandboxMode {
    Normal,
    Sandbox,
}

impl SandboxMode {
    /// The JSON value the mode is sent as: null for normal payments, the
    /// string `sandbox` for the sandbox.
    pub fn serialize(&self) -> (value: Option<&'static str>)
        ensures
            *self == SandboxMode::Normal ==> value is None,
            *self == SandboxMode::Sandbox ==> (value matches Some(s) && s@ == "sandbox"@),
    {
        match self {
            SandboxMode::Normal => None,
            SandboxMode::Sandbox => Some("sandbox"),
        }
    }
}

/// Settings of the payment window.
#[derive(Debug)]
pub struct Settings {
    pub currency: Currency,
    pub mode: SandboxMode,
    pub project_id: i32,
    pub return_url: String,
}

/// The identifier of a user.
#[derive(Debug)]
pub struct UserId {
    pub value: String,
}

/// The user who pays.
#[derive(Debug)]
pub struct User {
    pub id: UserId,
}

/// The parameters of a token request.
#[derive(Debug)]
pub struct Body {
    pub purchase: PurchaseInfo,
    pub settings: Settings,
    pub user: User,
}

} // verus!

//! Messages of the card payment gateway API.

use vstd::prelude::*;

verus! {

/// The envelope around every gateway response.
#[derive(Debug)]
pub struct FondyResponse<D> {
    pub response: D,
}

impl<D> FondyResponse<D> {
    /// The response without its envelope.
    pub fn into_response(self) -> (data: D)
        ensures
            data == self.response,
    {
        self.response
    }
}

/// A gateway response: the expected data, or an error, each in its envelope.
#[derive(Debug)]
pub enum FondyDataOrErrorResponse<D, E> {
    Data(FondyResponse<D>),
    Error(FondyResponse<E>),
}

impl<D, E> FondyDataOrErrorResponse<D, E> {
    /// The response as a `Result`, without its envelope.
    pub fn into_result(self) -> (res: Result<D, E>)
        ensures
            match self {
                FondyDataOrErrorResponse::Data(ok) => res == Ok::<D, E>(ok.response),
                FondyDataOrErrorResponse::Error(err) => res == Err::<D, E>(err.response),
            },
    {
        match self {
            FondyDataOrErrorResponse::Data(ok) => Ok(ok.into_response()),
            FondyDataOrErrorResponse::Error(err) => Err(err.into_response()),
        }
    }
}

/// Whether a request succeeded (`success`) or failed (`failure`).
#[derive(PartialEq, Eq, Structural, Clone, Copy, Debug)]
pub enum ResponseStatus {
    Success,
    Failure,
}

/// The answer to a request that failed.
#[derive(Debug)]
pub struct FondyInvalidResponse {
    pub response_status: ResponseStatus,
    pub error_code: i32,
    pub error_message: String,
}

/// The answer to a checkout request: where to send the buyer.
#[derive(Debug)]
pub struct FondyRedirectUrlResponse {
    pub response_status: ResponseStatus,
    pub checkout_url: String,
    pub payment_id: String,
}

/// The state of an order.
#[derive(PartialEq, Eq, Structural, Clone, Copy, Debug)]
pub enum OrderStatus {
    Created,
    Processing,
    Declined,
    Approved,
    Expired,
    Reversed,
}

/// The kind of a transaction.
#[derive(PartialEq, Eq, Structural, Clone, Copy, Debug)]
pub enum TransactionType {
    Purchase,
    Reverse,
}

/// The state of a card verification.
#[derive(PartialEq, Eq, Structural, Clone, Copy, Debug)]
pub enum VerificationStatus {
    Varified,
    Incorrect,
    Failed,
    Created,
}

/// The gateway's report of a payment.
#[derive(Debug)]
pub struct FondyPaymentResponse {
    pub amount: u64,
    /// The response code; an empty code is none.
    pub response_code: Option<String>,
    pub reversal_amount: u64,
    pub settlement_amount: u64,
    pub actual_amount: u64,
    pub approval_code: u64,
    pub order_id: String,
    pub merchant_id: u64,
    pub currency: String,
    pub order_status: OrderStatus,
    pub response_status: ResponseStatus,
    pub signature: String,
    pub tran_type: TransactionType,
    pub sender_cell_phone: String,
    pub sender_account: String,
    pub masked_card: String,
    pub card_bin: u64,
    pub card_type: String,
    pub rrn: String,
    pub response_description: String,
    pub settlement_currency: String,
    pub order_time: String,
    pub settlement_date: String,
    pub eci: String,
    pub fee: String,
    pub payment_system: String,
    pub sender_email: String,
    pub payment_id: u32,
    pub actual_currency: String,
    pub product_id: String,
    pub merchant_data: String,
    pub verification_status: String,
    pub rectoken: String,
    pub rectoken_lifetime: String,
}

} // verus!

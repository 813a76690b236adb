//! Responses that carry either data or an API error.

use vstd::prelude::*;

verus! {

/// A response of the API: the expected data, or an error description.
#[derive(Debug)]
pub enum DataOrErrorResponse<D> {
    Data(D),
    Error(ErrorResponse),
}

impl<D> DataOrErrorResponse<D> {
    /// The response as a `Result`: its data, or its error.
    pub fn into_result(self) -> (res: Result<D, ErrorResponse>)
        ensures
            match self {
                DataOrErrorResponse::Data(data) => res == Ok::<D, ErrorResponse>(data),
                DataOrErrorResponse::Error(err) => res == Err::<D, ErrorResponse>(err),
            },
    {
        Result::<D, ErrorResponse>::from(self)
    }
}

impl<D> From<DataOrErrorResponse<D>> for Result<D, ErrorResponse> {
    fn from(resp: DataOrErrorResponse<D>) -> (res: Result<D, ErrorResponse>) {
        match resp {
            DataOrErrorResponse::Data(ok) => Ok(ok),
            DataOrErrorResponse::Error(err) => Err(err),
        }
    }
}

impl<D> vstd::std_specs::convert::FromSpecImpl<DataOrErrorResponse<D>> for Result<D, ErrorResponse> {
    open spec fn obeys_from_spec() -> bool {
        true
    }

    open spec fn from_spec(resp: DataOrErrorResponse<D>) -> Result<D, ErrorResponse> {
        match resp {
            DataOrErrorResponse::Data(ok) => Ok(ok),
            DataOrErrorResponse::Error(err) => Err(err),
        }
    }
}

/// An HTTP status code: a number from 100 to 999.
#[derive(Debug, Clone, Copy)]
pub struct HttpStatusCode {
    code: u16,
}

impl View for HttpStatusCode {
    type V = u16;

    closed spec fn view(&self) -> u16 {
        self.code
    }
}

impl HttpStatusCode {
    #[verifier::type_invariant]
    spec fn inv(self) -> bool {
        100 <= self.code <= 999
    }

    /// The status code with this number, if it is one: from 100 to 999.
    pub fn from_u16(code: u16) -> (status: Option<HttpStatusCode>)
        ensures
            100 <= code <= 999 ==> (status matches Some(s) && s@ == code),
            !(100 <= code <= 999) ==> status is None,
    {
        if 100 <= code && code <= 999 {
            Some(HttpStatusCode { code })
        } else {
            None
        }
    }

    /// The number of the status code.
    pub fn as_u16(&self) -> (code: u16)
        ensures
            code == self@,
            100 <= code <= 999,
    {
        proof {
            use_type_invariant(self);
        }
        self.code
    }
}

/// An error reported by the API.
#[derive(Debug)]
pub struct ErrorResponse {
    /// The HTTP status code.
    pub http_status_code: HttpStatusCode,
    /// The message; an empty message is none.
    pub message: Option<String>,
    pub extended_message: Option<String>,
    pub request_id: String,
}

} // verus!

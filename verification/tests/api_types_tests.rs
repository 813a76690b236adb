use xsolla_callback::api_types::error::{DataOrErrorResponse, ErrorResponse, HttpStatusCode};
use xsolla_callback::api_types::helpers::{
    currency_from_lookup, deserealize_currency, serialize_currency, CurrencyError,
};
use xsolla_callback::api_types::token_request_body::SandboxMode;
use xsolla_callback::messages::{FondyDataOrErrorResponse, FondyResponse};

fn error_response() -> ErrorResponse {
    ErrorResponse {
        http_status_code: HttpStatusCode::from_u16(422).unwrap(),
        message: Some("bad".to_string()),
        extended_message: None,
        request_id: "r1".to_string(),
    }
}

#[test]
fn data_or_error_into_result() {
    let ok: DataOrErrorResponse<i32> = DataOrErrorResponse::Data(5);
    assert_eq!(ok.into_result().ok(), Some(5));
    let err: DataOrErrorResponse<i32> = DataOrErrorResponse::Error(error_response());
    match err.into_result() {
        Err(e) => {
            assert_eq!(e.http_status_code.as_u16(), 422);
            assert_eq!(e.request_id, "r1");
        }
        Ok(_) => panic!("expected the error"),
    }
    let via_from: Result<i32, ErrorResponse> = DataOrErrorResponse::Data(7).into();
    assert_eq!(via_from.ok(), Some(7));
}

#[test]
fn fondy_response_unwraps() {
    let resp = FondyResponse { response: "x".to_string() };
    assert_eq!(resp.into_response(), "x");
    let ok: FondyDataOrErrorResponse<i32, String> =
        FondyDataOrErrorResponse::Data(FondyResponse { response: 1 });
    assert_eq!(ok.into_result(), Ok(1));
    let err: FondyDataOrErrorResponse<i32, String> =
        FondyDataOrErrorResponse::Error(FondyResponse { response: "e".to_string() });
    assert_eq!(err.into_result(), Err("e".to_string()));
}

#[test]
fn currency_codes_are_read_and_written() {
    let usd = deserealize_currency("USD").ok().unwrap();
    assert_eq!(usd.alpha3(), "USD");
    assert_eq!(serialize_currency(&usd), "USD");
    let rub = deserealize_currency("RUB").ok().unwrap();
    assert_eq!(serialize_currency(&rub), "RUB");
}

#[test]
fn currency_code_errors() {
    assert_eq!(deserealize_currency("US").err(), Some(CurrencyError::WrongLength));
    assert_eq!(deserealize_currency("USDX").err(), Some(CurrencyError::WrongLength));
    assert_eq!(deserealize_currency("").err(), Some(CurrencyError::WrongLength));
    assert_eq!(deserealize_currency("XQQ").err(), Some(CurrencyError::UnknownCode));
    assert_eq!(deserealize_currency("usd").err(), Some(CurrencyError::UnknownCode));
    assert_eq!(
        CurrencyError::WrongLength.message(),
        "Must be 3 symbols for currency parsing"
    );
    assert_eq!(CurrencyError::UnknownCode.message(), "Invalid currency code");
}

#[test]
fn currency_lookup_outcome() {
    let eur = deserealize_currency("EUR").ok().unwrap();
    let found = currency_from_lookup(Some(eur));
    assert_eq!(found.ok().map(|c| c.alpha3().to_string()), Some("EUR".to_string()));
    assert_eq!(currency_from_lookup(None).err(), Some(CurrencyError::UnknownCode));
}

#[test]
fn sandbox_mode_values() {
    assert_eq!(SandboxMode::Normal.serialize(), None);
    assert_eq!(SandboxMode::Sandbox.serialize(), Some("sandbox"));
}

#[test]
fn written_currency_reads_back() {
    for code in ["USD", "EUR", "JPY", "RUB"] {
        let c = deserealize_currency(code).ok().unwrap();
        let again = deserealize_currency(serialize_currency(&c)).ok().unwrap();
        assert_eq!(again.alpha3(), c.alpha3());
    }
}

#[test]
fn http_status_codes_are_100_to_999() {
    assert!(HttpStatusCode::from_u16(99).is_none());
    assert_eq!(HttpStatusCode::from_u16(100).map(|s| s.as_u16()), Some(100));
    assert_eq!(HttpStatusCode::from_u16(999).map(|s| s.as_u16()), Some(999));
    assert!(HttpStatusCode::from_u16(1000).is_none());
    assert!(HttpStatusCode::from_u16(0).is_none());
}

//! Currencies by their ISO 4217 code.

use vstd::prelude::*;
use vstd::string::StringSliceAdditionalSpecFns;

verus! {

/// A currency of ISO 4217, by its three-letter code: always a code that the
/// table lists, three bytes long.
#[derive(Debug)]
pub struct Currency {
    alpha3: String,
}

impl View for Currency {
    type V = Seq<char>;

    closed spec fn view(&self) -> Seq<char> {
        self.alpha3@
    }
}

/// A three-byte code that ISO 4217 lists.
pub open spec fn is_currency_code(code: Seq<char>) -> bool {
    iso4217_has_alpha3(code) && vstd::utf8::encode_utf8(code).len() == 3
}

impl Currency {
    #[verifier::type_invariant]
    spec fn inv(self) -> bool {
        is_currency_code(self.alpha3@)
    }

    /// The three-letter code of the currency.
    pub fn alpha3(&self) -> (code: &str)
        ensures
            code@ == self@,
            is_currency_code(self@),
    {
        proof {
            use_type_invariant(self);
        }
        self.alpha3.as_str()
    }
}

/// Why text is not a currency code.
#[derive(PartialEq, Eq, Structural, Clone, Copy, Debug)]
pub enum CurrencyError {
    /// The text is not three bytes long.
    WrongLength,
    /// No currency has this code.
    UnknownCode,
}

impl CurrencyError {
    /// The message of the error.
    pub fn message(&self) -> (msg: &'static str)
        ensures
            msg@ == match self {
                CurrencyError::WrongLength => "Must be 3 symbols for currency parsing"@,
                CurrencyError::UnknownCode => "Invalid currency code"@,
            },
    {
        match self {
            CurrencyError::WrongLength => "Must be 3 symbols for currency parsing",
            CurrencyError::UnknownCode => "Invalid currency code",
        }
    }
}

/// Whether ISO 4217 lists a currency with this three-letter code.
pub uninterp spec fn iso4217_has_alpha3(code: Seq<char>) -> bool;

/// Calls `iso4217::alpha3`. Trusted: it finds a currency exactly when the
/// table lists one whose code equals `text`, and gives back that code.
#[verifier::external_body]
fn lookup_alpha3(text: &str) -> (found: Option<String>)
    ensures
        found is Some <==> iso4217_has_alpha3(text@),
        found matches Some(code) ==> code@ == text@,
{
    iso4217::alpha3(text).map(|c| c.alpha3.to_string())
}

/// The currency that a table lookup found, or the error for a code that it
/// does not list.
pub fn currency_from_lookup(found: Option<Currency>) -> (res: Result<Currency, CurrencyError>)
    ensures
        match found {
            Some(c) => res == Ok::<Currency, CurrencyError>(c),
            None => res == Err::<Currency, CurrencyError>(CurrencyError::UnknownCode),
        },
{
    match found {
        Some(c) => Ok(c),
        None => Err(CurrencyError::UnknownCode),
    }
}

/// Reads a currency from its three-letter code: the text must be three bytes
/// long and a code that ISO 4217 lists.
pub fn deserealize_currency(text: &str) -> (res: Result<Currency, CurrencyError>)
    ensures
        text.spec_bytes().len() != 3 ==> res == Err::<Currency, CurrencyError>(
            CurrencyError::WrongLength,
        ),
        text.spec_bytes().len() == 3 && !iso4217_has_alpha3(text@) ==> res == Err::<
            Currency,
            CurrencyError,
        >(CurrencyError::UnknownCode),
        is_currency_code(text@) ==> (res matches Ok(c) && c@ == text@),
{
    if text.as_bytes().len() != 3 {
        return Err(CurrencyError::WrongLength);
    }
    match lookup_alpha3(text) {
        Some(code) => currency_from_lookup(Some(Currency { alpha3: code })),
        None => currency_from_lookup(None),
    }
}

/// The text that a currency is written as: its three-letter code, which reads
/// back as the same currency.
pub fn serialize_currency(currency: &Currency) -> (code: &str)
    ensures
        code@ == currency@,
        is_currency_code(code@),
{
    currency.alpha3()
}

} // verus!

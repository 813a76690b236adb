//! Obtaining a payment token and sending the buyer to the payment window.

use vstd::prelude::*;
use vstd::string::StringExecFns;

use crate::text::{i32_to_decimal, int_decimal};

verus! {

/// Where the token endpoint of a merchant begins.
pub const TOKEN_URL_PREFIX: &'static str = "https://api.xsolla.com/merchant/v2/merchants/";

/// Where the token endpoint of a merchant ends.
pub const TOKEN_URL_SUFFIX: &'static str = "/token";

/// The payment window, to which the access token is appended.
pub const PURCHASE_WINDOW_URL_PREFIX: &'static str =
    "https://sandbox-secure.xsolla.com/paystation3/?access_token=";

/// The URL from which a merchant requests payment tokens.
pub fn token_request_url(merchant_id: i32) -> (url: String)
    ensures
        url@ == TOKEN_URL_PREFIX@ + int_decimal(merchant_id as int) + TOKEN_URL_SUFFIX@,
{
    let mut url = String::from_str(TOKEN_URL_PREFIX);
    let id = i32_to_decimal(merchant_id);
    url.append(id.as_str());
    url.append(TOKEN_URL_SUFFIX);
    url
}

/// Whether an HTTP status reports success: 200 to 299.
pub fn status_is_success(status: u16) -> (success: bool)
    ensures
        success == (200 <= status <= 299),
{
    200 <= status && status <= 299
}

/// What happened at the last step of a token request.
#[derive(Debug)]
pub enum TokenEvent {
    /// The request could not be sent or got no response.
    SendFailed,
    /// A response came with this HTTP status.
    Responded { status: u16 },
    /// The text of an unsuccessful response was read (or could not be).
    ErrorTextRead,
    /// The body of a successful response could not be read.
    BodyFailed,
    /// The body of a successful response was read.
    BodyReceived(String),
    /// The body is not a token object.
    ParseFailed,
    /// The body held this token.
    TokenParsed(String),
}

/// What to do next in a token request.
#[derive(Debug)]
pub enum TokenAction {
    /// Read the body of the response.
    ReadBody,
    /// Read the text of an unsuccessful response, for the log.
    ReadErrorText,
    /// Parse the body as a token object.
    ParseBody(String),
    /// Stop, with the token if one was obtained.
    Finish(Option<String>),
}

/// The next action of a token request after `event`: a response is read only
/// when its status reports success, a read body is parsed, and the request
/// ends with a token only when one was parsed.
pub fn request_token_step(event: TokenEvent) -> (action: TokenAction)
    ensures
        match event {
            TokenEvent::SendFailed => action == TokenAction::Finish(None),
            TokenEvent::Responded { status } => if 200 <= status <= 299 {
                action == TokenAction::ReadBody
            } else {
                action == TokenAction::ReadErrorText
            },
            TokenEvent::ErrorTextRead => action == TokenAction::Finish(None),
            TokenEvent::BodyFailed => action == TokenAction::Finish(None),
            TokenEvent::BodyReceived(text) => action == TokenAction::ParseBody(text),
            TokenEvent::ParseFailed => action == TokenAction::Finish(None),
            TokenEvent::TokenParsed(token) => action == TokenAction::Finish(Some(token)),
        },
{
    match event {
        TokenEvent::SendFailed => TokenAction::Finish(None),
        TokenEvent::Responded { status } => {
            if status_is_success(status) {
                TokenAction::ReadBody
            } else {
                TokenAction::ReadErrorText
            }
        },
        TokenEvent::ErrorTextRead => TokenAction::Finish(None),
        TokenEvent::BodyFailed => TokenAction::Finish(None),
        TokenEvent::BodyReceived(text) => TokenAction::ParseBody(text),
        TokenEvent::ParseFailed => TokenAction::Finish(None),
        TokenEvent::TokenParsed(token) => TokenAction::Finish(Some(token)),
    }
}

/// Whether `text` is a valid URI.
pub uninterp spec fn uri_parses(text: Seq<char>) -> bool;

/// Calls `<http::Uri as FromStr>::from_str`. Trusted: the answer is whether
/// `text` parses as a URI, which depends on the text alone.
#[verifier::external_body]
fn is_valid_uri(text: &str) -> (valid: bool)
    ensures
        valid == uri_parses(text@),
{
    text.parse::<http::Uri>().is_ok()
}

/// The payment window for an access token.
pub fn purchase_window_url(token: &str) -> (url: String)
    ensures
        url@ == PURCHASE_WINDOW_URL_PREFIX@ + token@,
{
    let mut url = String::from_str(PURCHASE_WINDOW_URL_PREFIX);
    url.append(token);
    url
}

/// The answer to a purchase request.
#[derive(Debug)]
pub enum BuyReply {
    /// 303 See Other, to this URL.
    Redirect(String),
    /// 500 Internal Server Error.
    InternalServerError,
}

impl BuyReply {
    /// The HTTP status of the reply.
    pub fn status_code(&self) -> (code: u16)
        ensures
            code == match self {
                BuyReply::Redirect(_) => 303u16,
                BuyReply::InternalServerError => 500u16,
            },
    {
        match self {
            BuyReply::Redirect(_) => 303,
            BuyReply::InternalServerError => 500,
        }
    }
}

/// The answer once the payment window URL is known: a redirect to it when it
/// is a valid URI, else an internal error.
pub fn redirect_reply(url: String, url_is_valid: bool) -> (reply: BuyReply)
    ensures
        url_is_valid ==> reply == BuyReply::Redirect(url),
        !url_is_valid ==> reply == BuyReply::InternalServerError,
{
    if url_is_valid {
        BuyReply::Redirect(url)
    } else {
        BuyReply::InternalServerError
    }
}

/// The answer to a purchase request given the outcome of the token request:
/// without a token an internal error, with one a redirect to the payment
/// window when its URL is a valid URI.
pub fn buy(token: Option<String>) -> (reply: BuyReply)
    ensures
        match token {
            None => reply == BuyReply::InternalServerError,
            Some(t) => if uri_parses(PURCHASE_WINDOW_URL_PREFIX@ + t@) {
                reply matches BuyReply::Redirect(url) && url@ == PURCHASE_WINDOW_URL_PREFIX@ + t@
            } else {
                reply == BuyReply::InternalServerError
            },
        },
{
    match token {
        None => BuyReply::InternalServerError,
        Some(t) => {
            let url = purchase_window_url(t.as_str());
            let valid = is_valid_uri(url.as_str());
            redirect_reply(url, valid)
        },
    }
}

} // verus!

//! The webhook endpoint's decisions: who may call it, whether the request is
//! signed, and what it answers.

use vstd::prelude::*;
use vstd::string::StringExecFns;

use crate::address::{IpAddress, check_remote_address_is_valid, is_webhook_source};
use crate::signature::{calculate_body_signature, sha1_hex};
use crate::text::{has_prefix, str_eq, strip_prefix};

verus! {

/// Error code of a request with a bad parameter.
pub const ERROR_CODE_INVALID_PARAMETER: &'static str = "INVALID_PARAMETER";

/// Error code of a request with a bad signature.
pub const ERROR_CODE_INVALID_SIGNATURE: &'static str = "INVALID_SIGNATURE";

/// The prefix of the authorization header that carries the signature.
pub const SIGNATURE_PREFIX: &'static str = "Signature ";

/// The kind of a webhook notification, taken from its `notification_type`.
#[derive(PartialEq, Eq, Structural, Clone, Copy, Debug)]
pub enum NotificationKind {
    /// `user_validation`
    UserValidation,
    /// `payment`
    SuccessPayment,
    /// `refund`
    CanceledPayment,
    /// `afs_reject`
    Reject,
    /// Any other notification.
    Other,
}

/// The answer of the webhook endpoint.
#[derive(Debug)]
pub enum CallbackReply {
    /// 204 No Content.
    NoContent,
    /// 400 Bad Request, with the body `{"error": {"code": .., "message": ..}}`.
    Error { code: String, message: String },
    /// A notification of a kind that has no handler yet.
    Unhandled(NotificationKind),
}

/// The answer of the webhook endpoint, with text as character sequences.
pub enum CallbackReplyView {
    NoContent,
    Error(Seq<char>, Seq<char>),
    Unhandled(NotificationKind),
}

impl View for CallbackReply {
    type V = CallbackReplyView;

    open spec fn view(&self) -> CallbackReplyView {
        match self {
            CallbackReply::NoContent => CallbackReplyView::NoContent,
            CallbackReply::Error { code, message } => CallbackReplyView::Error(code@, message@),
            CallbackReply::Unhandled(kind) => CallbackReplyView::Unhandled(*kind),
        }
    }
}

impl CallbackReply {
    /// The HTTP status of the reply: 204 for no content, 400 for an error,
    /// none for an unhandled notification.
    pub fn status_code(&self) -> (code: Option<u16>)
        ensures
            code == match self@ {
                CallbackReplyView::NoContent => Some(204u16),
                CallbackReplyView::Error(_, _) => Some(400u16),
                CallbackReplyView::Unhandled(_) => None,
            },
    {
        match self {
            CallbackReply::NoContent => Some(204),
            CallbackReply::Error { .. } => Some(400),
            CallbackReply::Unhandled(_) => None,
        }
    }
}

/// An error reply with the given code and message.
pub fn callback_error_reply(code: &str, message: &str) -> (reply: CallbackReply)
    ensures
        reply@ == CallbackReplyView::Error(code@, message@),
{
    CallbackReply::Error { code: String::from_str(code), message: String::from_str(message) }
}

/// The reply to a notification that passed the checks, by the outcome of
/// parsing its body.
pub open spec fn dispatch_reply(parsed: Result<NotificationKind, Seq<char>>) -> CallbackReplyView {
    match parsed {
        Err(e) => CallbackReplyView::Error(
            ERROR_CODE_INVALID_PARAMETER@,
            "Body parsing failed with error: "@ + e,
        ),
        Ok(NotificationKind::Other) => CallbackReplyView::NoContent,
        Ok(kind) => CallbackReplyView::Unhandled(kind),
    }
}

/// The parse outcome with its error as text.
pub open spec fn parsed_view(parsed: &Result<NotificationKind, String>) -> Result<
    NotificationKind,
    Seq<char>,
> {
    match parsed {
        Ok(kind) => Ok(*kind),
        Err(e) => Err(e@),
    }
}

/// The rejection of a webhook request that fails its checks, if it does: the
/// sender must be a webhook source, and the authorization header must be
/// `Signature ` followed by the SHA-1 signature of the body and the secret key.
pub open spec fn webhook_rejection(
    remote_addr: Option<IpAddress>,
    authorization: Seq<char>,
    body: Seq<u8>,
    secret_key: Seq<char>,
) -> Option<CallbackReplyView> {
    match remote_addr {
        None => Some(
            CallbackReplyView::Error(ERROR_CODE_INVALID_PARAMETER@, "Remote address is missing"@),
        ),
        Some(addr) => if !is_webhook_source(addr) {
            Some(CallbackReplyView::Error(ERROR_CODE_INVALID_PARAMETER@, "Remote address invalid"@))
        } else if !has_prefix(authorization, SIGNATURE_PREFIX@) {
            Some(
                CallbackReplyView::Error(
                    ERROR_CODE_INVALID_SIGNATURE@,
                    "Signature does not start with valid prefix"@,
                ),
            )
        } else if sha1_hex(body + vstd::utf8::encode_utf8(secret_key)) != authorization.subrange(
            SIGNATURE_PREFIX@.len() as int,
            authorization.len() as int,
        ) {
            Some(
                CallbackReplyView::Error(
                    ERROR_CODE_INVALID_SIGNATURE@,
                    "Received signature invalid"@,
                ),
            )
        } else {
            None
        },
    }
}

/// The reply of the webhook endpoint: its rejection if the checks fail, else
/// what the parsed body decides.
pub open spec fn webhook_reply(
    remote_addr: Option<IpAddress>,
    authorization: Seq<char>,
    body: Seq<u8>,
    secret_key: Seq<char>,
    parsed: Result<NotificationKind, Seq<char>>,
) -> CallbackReplyView {
    match webhook_rejection(remote_addr, authorization, body, secret_key) {
        Some(rejection) => rejection,
        None => dispatch_reply(parsed),
    }
}

/// Checks a webhook request's sender and signature: the rejection to send, or
/// none when the request may be handled.
pub fn authenticate_callback(
    remote_addr: &Option<IpAddress>,
    authorization_header: &str,
    body: &[u8],
    secret_key: &str,
) -> (rejection: Option<CallbackReply>)
    ensures
        match webhook_rejection(*remote_addr, authorization_header@, body@, secret_key@) {
            Some(r) => rejection matches Some(reply) && reply@ == r,
            None => rejection is None,
        },
{
    match remote_addr {
        Some(addr) => {
            if !check_remote_address_is_valid(addr) {
                return Some(
                    callback_error_reply(ERROR_CODE_INVALID_PARAMETER, "Remote address invalid"),
                );
            }
        },
        None => {
            return Some(
                callback_error_reply(ERROR_CODE_INVALID_PARAMETER, "Remote address is missing"),
            );
        },
    }
    match strip_prefix(authorization_header, SIGNATURE_PREFIX) {
        Some(received) => {
            let calculated = calculate_body_signature(body, secret_key.as_bytes());
            if !str_eq(calculated.as_str(), received.as_str()) {
                return Some(
                    callback_error_reply(ERROR_CODE_INVALID_SIGNATURE, "Received signature invalid"),
                );
            }
        },
        None => {
            return Some(
                callback_error_reply(
                    ERROR_CODE_INVALID_SIGNATURE,
                    "Signature does not start with valid prefix",
                ),
            );
        },
    }
    None
}

/// The reply to a notification that passed the checks, by the outcome of
/// parsing its body.
pub fn dispatch_callback(parsed: Result<NotificationKind, String>) -> (reply: CallbackReply)
    ensures
        reply@ == dispatch_reply(parsed_view(&parsed)),
{
    match parsed {
        Err(e) => {
            let mut message = String::from_str("Body parsing failed with error: ");
            message.append(e.as_str());
            CallbackReply::Error { code: String::from_str(ERROR_CODE_INVALID_PARAMETER), message }
        },
        Ok(NotificationKind::Other) => CallbackReply::NoContent,
        Ok(kind) => CallbackReply::Unhandled(kind),
    }
}

/// Decides the answer to a webhook request from its remote address, its
/// authorization header, its body, the project's secret key and the outcome
/// of parsing the body.
pub fn server_callback(
    remote_addr: Option<IpAddress>,
    authorization_header: &str,
    body: &[u8],
    secret_key: &str,
    parsed: Result<NotificationKind, String>,
) -> (reply: CallbackReply)
    ensures
        reply@ == webhook_reply(
            remote_addr,
            authorization_header@,
            body@,
            secret_key@,
            parsed_view(&parsed),
        ),
{
    match authenticate_callback(&remote_addr, authorization_header, body, secret_key) {
        Some(rejection) => rejection,
        None => dispatch_callback(parsed),
    }
}

/// A request from a webhook source whose authorization header carries the
/// body's signature is answered by its parsed body alone.
pub proof fn lemma_signed_request_is_dispatched(
    addr: IpAddress,
    body: Seq<u8>,
    secret_key: Seq<char>,
    parsed: Result<NotificationKind, Seq<char>>,
)
    requires
        is_webhook_source(addr),
    ensures
        webhook_reply(
            Some(addr),
            SIGNATURE_PREFIX@ + sha1_hex(body + vstd::utf8::encode_utf8(secret_key)),
            body,
            secret_key,
            parsed,
        ) == dispatch_reply(parsed),
{
    let sig = sha1_hex(body + vstd::utf8::encode_utf8(secret_key));
    let auth = SIGNATURE_PREFIX@ + sig;
    assert(auth.subrange(0, SIGNATURE_PREFIX@.len() as int) =~= SIGNATURE_PREFIX@);
    assert(auth.subrange(SIGNATURE_PREFIX@.len() as int, auth.len() as int) =~= sig);
}

/// A request is answered with anything but an error only when it comes from a
/// webhook source and its authorization header is `Signature ` followed by the
/// signature of its body and the secret key.
pub proof fn lemma_accepted_request_is_authentic(
    remote_addr: Option<IpAddress>,
    authorization: Seq<char>,
    body: Seq<u8>,
    secret_key: Seq<char>,
    parsed: Result<NotificationKind, Seq<char>>,
)
    requires
        !(webhook_reply(remote_addr, authorization, body, secret_key, parsed) is Error),
    ensures
        remote_addr matches Some(addr) && is_webhook_source(addr),
        authorization == SIGNATURE_PREFIX@ + sha1_hex(body + vstd::utf8::encode_utf8(secret_key)),
{
    let n = SIGNATURE_PREFIX@.len() as int;
    assert(authorization =~= authorization.subrange(0, n) + authorization.subrange(
        n,
        authorization.len() as int,
    ));
}

} // verus!

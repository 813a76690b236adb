use xsolla_callback::address::{check_remote_address_is_valid, IpAddress};
use xsolla_callback::callback::{
    authenticate_callback, callback_error_reply, dispatch_callback, server_callback,
    CallbackReply, NotificationKind,
};
use xsolla_callback::signature::calculate_body_signature;

const BODY: &[u8] = b"{\"notification_type\":\"other\"}";
const SECRET: &str = "mysecret";
const GOOD_HEADER: &str = "Signature 3e572ca7376bbdc5817327117b5ccdb6c281127e";

fn source() -> Option<IpAddress> {
    Some(IpAddress::V4([185, 30, 21, 7]))
}

fn error_of(reply: &CallbackReply) -> (String, String) {
    match reply {
        CallbackReply::Error { code, message } => (code.clone(), message.clone()),
        _ => panic!("expected an error reply"),
    }
}

#[test]
fn webhook_sources_are_three_networks() {
    assert!(check_remote_address_is_valid(&IpAddress::V4([185, 30, 20, 0])));
    assert!(check_remote_address_is_valid(&IpAddress::V4([185, 30, 20, 255])));
    assert!(check_remote_address_is_valid(&IpAddress::V4([185, 30, 21, 1])));
    assert!(check_remote_address_is_valid(&IpAddress::V4([185, 30, 23, 200])));
    assert!(!check_remote_address_is_valid(&IpAddress::V4([185, 30, 22, 1])));
    assert!(!check_remote_address_is_valid(&IpAddress::V4([185, 31, 20, 1])));
    assert!(!check_remote_address_is_valid(&IpAddress::V4([127, 0, 0, 1])));
    assert!(!check_remote_address_is_valid(&IpAddress::V6([0; 16])));
}

#[test]
fn header_signature_matches_body_signature() {
    let sig = calculate_body_signature(BODY, SECRET.as_bytes());
    assert_eq!(format!("Signature {}", sig), GOOD_HEADER);
}

#[test]
fn missing_remote_address_is_rejected() {
    let reply = server_callback(None, GOOD_HEADER, BODY, SECRET, Ok(NotificationKind::Other));
    assert_eq!(
        error_of(&reply),
        ("INVALID_PARAMETER".to_string(), "Remote address is missing".to_string())
    );
    assert_eq!(reply.status_code(), Some(400));
}

#[test]
fn foreign_remote_address_is_rejected() {
    let reply = server_callback(
        Some(IpAddress::V4([10, 0, 0, 1])),
        GOOD_HEADER,
        BODY,
        SECRET,
        Ok(NotificationKind::Other),
    );
    assert_eq!(
        error_of(&reply),
        ("INVALID_PARAMETER".to_string(), "Remote address invalid".to_string())
    );
}

#[test]
fn header_without_prefix_is_rejected() {
    let reply = server_callback(
        source(),
        "3e572ca7376bbdc5817327117b5ccdb6c281127e",
        BODY,
        SECRET,
        Ok(NotificationKind::Other),
    );
    assert_eq!(
        error_of(&reply),
        (
            "INVALID_SIGNATURE".to_string(),
            "Signature does not start with valid prefix".to_string()
        )
    );
}

#[test]
fn wrong_signature_is_rejected() {
    let reply = server_callback(
        source(),
        "Signature 0000000000000000000000000000000000000000",
        BODY,
        SECRET,
        Ok(NotificationKind::Other),
    );
    assert_eq!(
        error_of(&reply),
        ("INVALID_SIGNATURE".to_string(), "Received signature invalid".to_string())
    );
    let reply = server_callback(source(), GOOD_HEADER, BODY, "othersecret", Ok(NotificationKind::Other));
    assert_eq!(error_of(&reply).1, "Received signature invalid");
}

#[test]
fn unparsable_body_is_rejected() {
    let reply = server_callback(source(), GOOD_HEADER, BODY, SECRET, Err("eof".to_string()));
    assert_eq!(
        error_of(&reply),
        (
            "INVALID_PARAMETER".to_string(),
            "Body parsing failed with error: eof".to_string()
        )
    );
}

#[test]
fn other_notification_gets_no_content() {
    let reply = server_callback(source(), GOOD_HEADER, BODY, SECRET, Ok(NotificationKind::Other));
    assert!(matches!(reply, CallbackReply::NoContent));
    assert_eq!(reply.status_code(), Some(204));
}

#[test]
fn handled_kinds_are_not_implemented_yet() {
    for kind in [
        NotificationKind::UserValidation,
        NotificationKind::SuccessPayment,
        NotificationKind::CanceledPayment,
        NotificationKind::Reject,
    ] {
        let reply = server_callback(source(), GOOD_HEADER, BODY, SECRET, Ok(kind));
        assert!(matches!(reply, CallbackReply::Unhandled(k) if k == kind));
        assert_eq!(reply.status_code(), None);
    }
}

#[test]
fn error_reply_carries_code_and_message() {
    let reply = callback_error_reply("CODE", "message");
    assert_eq!(error_of(&reply), ("CODE".to_string(), "message".to_string()));
}

#[test]
fn authentication_alone() {
    assert!(authenticate_callback(&source(), GOOD_HEADER, BODY, SECRET).is_none());
    let rejection = authenticate_callback(&None, GOOD_HEADER, BODY, SECRET).unwrap();
    assert_eq!(error_of(&rejection).1, "Remote address is missing");
    let rejection = authenticate_callback(&source(), "Signature x", BODY, SECRET).unwrap();
    assert_eq!(error_of(&rejection).1, "Received signature invalid");
}

#[test]
fn dispatch_by_parsed_body() {
    assert!(matches!(dispatch_callback(Ok(NotificationKind::Other)), CallbackReply::NoContent));
    assert!(matches!(
        dispatch_callback(Ok(NotificationKind::Reject)),
        CallbackReply::Unhandled(NotificationKind::Reject)
    ));
    assert_eq!(
        error_of(&dispatch_callback(Err("bad".to_string()))).1,
        "Body parsing failed with error: bad"
    );
}

use xsolla_callback::token::{
    buy, purchase_window_url, redirect_reply, request_token_step, status_is_success,
    token_request_url, BuyReply, TokenAction, TokenEvent,
};

#[test]
fn token_url_holds_merchant_id() {
    assert_eq!(
        token_request_url(12345),
        "https://api.xsolla.com/merchant/v2/merchants/12345/token"
    );
    assert_eq!(token_request_url(0), "https://api.xsolla.com/merchant/v2/merchants/0/token");
    assert_eq!(token_request_url(-7), "https://api.xsolla.com/merchant/v2/merchants/-7/token");
    assert_eq!(
        token_request_url(i32::MIN),
        format!("https://api.xsolla.com/merchant/v2/merchants/{}/token", i32::MIN)
    );
    assert_eq!(
        token_request_url(i32::MAX),
        format!("https://api.xsolla.com/merchant/v2/merchants/{}/token", i32::MAX)
    );
}

#[test]
fn success_statuses_are_2xx() {
    assert!(!status_is_success(199));
    assert!(status_is_success(200));
    assert!(status_is_success(204));
    assert!(status_is_success(299));
    assert!(!status_is_success(300));
    assert!(!status_is_success(500));
}

#[test]
fn token_request_steps() {
    assert!(matches!(request_token_step(TokenEvent::SendFailed), TokenAction::Finish(None)));
    assert!(matches!(
        request_token_step(TokenEvent::Responded { status: 200 }),
        TokenAction::ReadBody
    ));
    assert!(matches!(
        request_token_step(TokenEvent::Responded { status: 401 }),
        TokenAction::ReadErrorText
    ));
    assert!(matches!(request_token_step(TokenEvent::ErrorTextRead), TokenAction::Finish(None)));
    assert!(matches!(request_token_step(TokenEvent::BodyFailed), TokenAction::Finish(None)));
    match request_token_step(TokenEvent::BodyReceived("{\"token\":\"t\"}".to_string())) {
        TokenAction::ParseBody(text) => assert_eq!(text, "{\"token\":\"t\"}"),
        _ => panic!("expected a parse"),
    }
    assert!(matches!(request_token_step(TokenEvent::ParseFailed), TokenAction::Finish(None)));
    match request_token_step(TokenEvent::TokenParsed("abc".to_string())) {
        TokenAction::Finish(Some(token)) => assert_eq!(token, "abc"),
        _ => panic!("expected the token"),
    }
}

#[test]
fn purchase_window_url_appends_token() {
    assert_eq!(
        purchase_window_url("abc"),
        "https://sandbox-secure.xsolla.com/paystation3/?access_token=abc"
    );
}

#[test]
fn buy_without_token_fails() {
    let reply = buy(None);
    assert!(matches!(reply, BuyReply::InternalServerError));
    assert_eq!(reply.status_code(), 500);
}

#[test]
fn buy_redirects_to_payment_window() {
    let reply = buy(Some("abc123".to_string()));
    match &reply {
        BuyReply::Redirect(url) => assert_eq!(
            url,
            "https://sandbox-secure.xsolla.com/paystation3/?access_token=abc123"
        ),
        _ => panic!("expected a redirect"),
    }
    assert_eq!(reply.status_code(), 303);
}

#[test]
fn buy_with_token_that_breaks_the_uri_fails() {
    assert!(matches!(buy(Some("a b".to_string())), BuyReply::InternalServerError));
}

#[test]
fn redirect_reply_follows_validity() {
    assert!(matches!(redirect_reply("u".to_string(), false), BuyReply::InternalServerError));
    match redirect_reply("u".to_string(), true) {
        BuyReply::Redirect(url) => assert_eq!(url, "u"),
        _ => panic!("expected a redirect"),
    }
}

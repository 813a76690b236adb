use xsolla_callback::pages::{index_reply, IndexReply};

#[test]
fn index_shows_rendered_page() {
    let reply = index_reply(Some("<html></html>".to_string()));
    match &reply {
        IndexReply::Html(html) => assert_eq!(html, "<html></html>"),
        _ => panic!("expected the page"),
    }
    assert_eq!(reply.status_code(), 200);
}

#[test]
fn index_fails_without_rendering() {
    let reply = index_reply(None);
    assert!(matches!(reply, IndexReply::InternalServerError));
    assert_eq!(reply.status_code(), 500);
}

//! The index page.

use vstd::prelude::*;

verus! {

/// The answer to a request for the index page.
#[derive(Debug)]
pub enum IndexReply {
    /// 200 OK with this HTML.
    Html(String),
    /// 500 Internal Server Error.
    InternalServerError,
}

impl IndexReply {
    /// The HTTP status of the reply.
    pub fn status_code(&self) -> (code: u16)
        ensures
            code == match self {
                IndexReply::Html(_) => 200u16,
                IndexReply::InternalServerError => 500u16,
            },
    {
        match self {
            IndexReply::Html(_) => 200,
            IndexReply::InternalServerError => 500,
        }
    }
}

/// The answer to the index page given the outcome of rendering its template:
/// the rendered HTML, or an internal error when rendering failed.
pub fn index_reply(rendered: Option<String>) -> (reply: IndexReply)
    ensures
        match rendered {
            Some(html) => reply == IndexReply::Html(html),
            None => reply == IndexReply::InternalServerError,
        },
{
    match rendered {
        Some(html) => IndexReply::Html(html),
        None => IndexReply::InternalServerError,
    }
}

} // verus!

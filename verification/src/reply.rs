//! What the server sends back: a status, headers and a body.

use vstd::prelude::*;

verus! {

/// One header line of a reply.
#[derive(Debug, Clone, PartialEq, Eq)]
pub struct Header {
    pub name: String,
    pub value: String,
}

/// A `Header` as text.
pub struct HeaderView {
    pub name: Seq<char>,
    pub value: Seq<char>,
}

impl View for Header {
    type V = HeaderView;

    open spec fn view(&self) -> HeaderView {
        HeaderView { name: self.name@, value: self.value@ }
    }
}

/// The body of a reply: text held in memory, or the contents of the file at a
/// path, which the caller streams.
#[derive(Debug, Clone, PartialEq, Eq)]
pub enum Body {
    Text(String),
    File(String),
}

/// A `Body` as text.
pub enum BodyView {
    Text(Seq<char>),
    File(Seq<char>),
}

impl View for Body {
    type V = BodyView;

    open spec fn view(&self) -> BodyView {
        match self {
            Body::Text(text) => BodyView::Text(text@),
            Body::File(path) => BodyView::File(path@),
        }
    }
}

/// A reply to one request.
#[derive(Debug, Clone, PartialEq, Eq)]
pub struct Reply {
    pub status: u16,
    pub headers: Vec<Header>,
    pub body: Body,
}

/// A `Reply` as a status and text.
pub struct ReplyView {
    pub status: u16,
    pub headers: Seq<HeaderView>,
    pub body: BodyView,
}

impl View for Reply {
    type V = ReplyView;

    open spec fn view(&self) -> ReplyView {
        ReplyView {
            status: self.status,
            headers: Seq::new(self.headers@.len(), |i: int| self.headers@[i]@),
            body: self.body@,
        }
    }
}

/// The reply to a request that did not authenticate: status 401 with a Basic
/// challenge for the realm `Files`.
pub open spec fn unauthorized_reply() -> ReplyView {
    ReplyView {
        status: 401,
        headers: seq![
            HeaderView { name: "WWW-Authenticate"@, value: "Basic realm=\"Files\""@ },
        ],
        body: BodyView::Text("Unauthorized"@),
    }
}

/// The reply for a path that is absent or may not be served: status 404.
pub open spec fn not_found_reply() -> ReplyView {
    ReplyView { status: 404, headers: Seq::empty(), body: BodyView::Text("Not Found"@) }
}

/// The reply for what is neither a file nor a directory: status 500.
pub open spec fn server_error_reply() -> ReplyView {
    ReplyView {
        status: 500,
        headers: Seq::empty(),
        body: BodyView::Text("Internal server error"@),
    }
}

/// A reply with the given status, no headers and a text body.
pub fn plain_reply(status: u16, text: &str) -> (r: Reply)
    ensures
        r@ == (ReplyView { status, headers: Seq::empty(), body: BodyView::Text(text@) }),
{
    let r = Reply { status, headers: Vec::new(), body: Body::Text(text.to_owned()) };
    assert(r@.headers == Seq::<HeaderView>::empty());
    r
}

/// Builds the reply to a request that did not authenticate.
pub fn unauthorized() -> (r: Reply)
    ensures
        r@ == unauthorized_reply(),
{
    let mut headers: Vec<Header> = Vec::new();
    headers.push(
        Header { name: "WWW-Authenticate".to_owned(), value: "Basic realm=\"Files\"".to_owned() },
    );
    let r = Reply { status: 401, headers, body: Body::Text("Unauthorized".to_owned()) };
    assert(r@.headers == unauthorized_reply().headers);
    r
}

/// Builds the reply for a path that is absent or may not be served.
pub fn not_found() -> (r: Reply)
    ensures
        r@ == not_found_reply(),
{
    plain_reply(404, "Not Found")
}

/// Builds the reply for what is neither a file nor a directory.
pub fn server_error() -> (r: Reply)
    ensures
        r@ == server_error_reply(),
{
    plain_reply(500, "Internal server error")
}

} // verus!

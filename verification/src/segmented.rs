//! The server whose requests keep their path split into segments:
//! parsing a request, the response templates as bytes, and the decisions
//! that the connection loop takes for each request.
use vstd::prelude::*;
use vstd::utf8::*;
use crate::body::{Body, BodyView};
use crate::headers::{header_map, headers_from_lines, Headers};
use crate::decimal::{decimal, parse_usize};
use crate::response::{
    blank_line_at, byte_len, ends_with, framed, framed_response, is_prefix_of,
    lemma_framed_first_blank_line, lemma_heads_well_formed, ok_status_line, CREATED, JSON_HEAD,
    NOT_FOUND, OCTET_STREAM_HEAD, OK_EMPTY, PLAIN_TEXT_HEAD,
};
use crate::text::{same_text, split_char, split_on, split_whitespace, tokens, trim_end,
    trim_end_white_space};

verus! {

/// An HTTP request.
#[derive(Debug)]
pub struct Request {
    pub method: String,
    /// The request target split at every `/` (so it starts with an empty segment).
    pub path: Vec<String>,
    pub protocol: String,
    pub headers: Headers,
    pub body: Option<Body>,
}

/// Why a request line could not be read.
#[derive(Debug, Clone, Copy, PartialEq, Eq, Structural)]
pub enum ParseError {
    /// The request line is empty.
    MissingMethod,
    /// The request line has a method and a target but no protocol.
    MissingProtocol,
}

impl ParseError {
    /// The message that goes with the error.
    pub fn message(&self) -> (r: &'static str)
        ensures
            r@ == (match self {
                ParseError::MissingMethod => "missing method"@,
                ParseError::MissingProtocol => "missing protocol"@,
            }),
    {
        match self {
            ParseError::MissingMethod => "missing method",
            ParseError::MissingProtocol => "missing protocol",
        }
    }
}

impl Request {
    /// An empty request with an empty text body.
    #[allow(dead_code)]
    fn new() -> (r: Request)
        ensures
            r.method@ == Seq::<char>::empty(),
            r.path@.len() == 0,
            r.protocol@ == Seq::<char>::empty(),
            r.headers@ == Map::<Seq<char>, Seq<char>>::empty(),
            r.body matches Some(b) && b@ == BodyView::Text(Seq::empty()),
    {
        Request {
            method: String::new(),
            path: Vec::new(),
            protocol: String::new(),
            headers: Headers::new(),
            body: Some(Body::Text(String::new())),
        }
    }

    /// A request with the given parts and an empty text body.
    fn from(method: String, path: Vec<String>, protocol: String, headers: Headers) -> (r: Request)
        ensures
            r.method == method,
            r.path == path,
            r.protocol == protocol,
            r.headers == headers,
            r.body matches Some(b) && b@ == BodyView::Text(Seq::empty()),
    {
        Request { method, path, protocol, headers, body: Some(Body::Text(String::new())) }
    }

    /// The path segment at index `number`, if there is one.
    pub fn segment(&self, number: u8) -> (r: Option<&str>)
        ensures
            match r {
                Some(s) => number < self.path@.len() && s@ == self.path@[number as int]@,
                None => number >= self.path@.len(),
            },
    {
        let i = number as usize;
        if i < self.path.len() {
            Some(self.path[i].as_str())
        } else {
            None
        }
    }

    /// Reads a request from its request line and the header lines that
    /// follow it (up to, not including, the line that ends the header block).
    /// The request line is split at whitespace into method, target and
    /// protocol; the target is split at every `/`. Each header line with a
    /// `": "` gives a field, name and value lowercased. The body is empty text.
    pub fn from_lines(request_line: &str, header_lines: &Vec<String>) -> (r: Result<
        Request,
        ParseError,
    >)
        requires
            tokens(request_line@).len() != 1,
        ensures
            ({
                let t = tokens(request_line@);
                &&& t.len() == 0 ==> r == Err::<Request, ParseError>(ParseError::MissingMethod)
                &&& t.len() == 2 ==> r == Err::<Request, ParseError>(ParseError::MissingProtocol)
                &&& t.len() >= 3 ==> (r matches Ok(req) && {
                    &&& req.method@ == t[0]
                    &&& req.path.deep_view() == split_on(t[1], '/')
                    &&& req.protocol@ == t[2]
                    &&& req.headers@ == header_map(header_lines.deep_view(), false)
                    &&& (req.body matches Some(b) && b@ == BodyView::Text(Seq::empty()))
                })
            }),
    {
        let t = split_whitespace(request_line);
        assert(t.deep_view().len() == t@.len());
        if t.len() == 0 {
            return Err(ParseError::MissingMethod);
        }
        if t.len() < 3 {
            return Err(ParseError::MissingProtocol);
        }
        assert(t@[0]@ == t.deep_view()[0]);
        assert(t@[1]@ == t.deep_view()[1]);
        assert(t@[2]@ == t.deep_view()[2]);
        let method = t[0].clone();
        let path = split_char(t[1].as_str(), '/');
        let protocol = t[2].clone();
        let headers = headers_from_lines(header_lines, false);
        Ok(Request::from(method, path, protocol, headers))
    }
}

/// Response templates; `format` renders one as the bytes to send.
pub enum HttpTemplates {
    PlainText,
    OctetStream,
    Json,
    Created,
    NotFound,
    Slash,
}

impl HttpTemplates {
    /// The response text of this template for `content`.
    pub open spec fn text(self, content: Seq<char>) -> Seq<char> {
        match self {
            HttpTemplates::PlainText => framed(PLAIN_TEXT_HEAD@, content),
            HttpTemplates::OctetStream => framed(OCTET_STREAM_HEAD@, content),
            HttpTemplates::Json => framed(JSON_HEAD@, content),
            HttpTemplates::Created => CREATED@,
            HttpTemplates::NotFound => NOT_FOUND@,
            HttpTemplates::Slash => OK_EMPTY@,
        }
    }

    /// The response for `content`, as UTF-8 bytes. The `200 OK` templates
    /// carry `content` as the body with its byte length as `Content-Length`;
    /// the others ignore `content`.
    pub fn format(self, content: &str) -> (r: Vec<u8>)
        ensures
            r@ == encode_utf8(self.text(content@)),
    {
        let text = match self {
            HttpTemplates::PlainText => framed_response(PLAIN_TEXT_HEAD, content),
            HttpTemplates::OctetStream => framed_response(OCTET_STREAM_HEAD, content),
            HttpTemplates::Json => framed_response(JSON_HEAD, content),
            HttpTemplates::Created => CREATED.to_owned(),
            HttpTemplates::NotFound => NOT_FOUND.to_owned(),
            HttpTemplates::Slash => OK_EMPTY.to_owned(),
        };
        text.as_str().as_bytes_vec()
    }
}

impl HttpTemplates {
    /// The template answers `200 OK` with the content as body.
    pub open spec fn carries_content(self) -> bool {
        ||| self is PlainText
        ||| self is OctetStream
        ||| self is Json
    }

    /// The status line and headers of a template that carries content, up to
    /// the length value.
    pub open spec fn head(self) -> Seq<char> {
        match self {
            HttpTemplates::PlainText => PLAIN_TEXT_HEAD@,
            HttpTemplates::OctetStream => OCTET_STREAM_HEAD@,
            HttpTemplates::Json => JSON_HEAD@,
            _ => Seq::empty(),
        }
    }

    /// What stands right before the length value: the field name and colon,
    /// with a space in plain text.
    pub open spec fn length_lead(self) -> Seq<char> {
        match self {
            HttpTemplates::PlainText => "Content-Length: "@,
            _ => "Content-Length:"@,
        }
    }
}

/// A response that carries content, split at its first blank line, gives a
/// header block and exactly the content's bytes. The block starts with
/// `HTTP/1.1 200 OK` and ends with `Content-Length:` (and a space in plain
/// text) followed by the decimal byte length of the content, which reads
/// back as that length.
pub proof fn lemma_format_splits_at_first_blank_line(t: HttpTemplates, content: Seq<char>)
    requires
        t.carries_content(),
        byte_len(content) <= usize::MAX,
    ensures
        ({
            let b = encode_utf8(t.text(content));
            let h = encode_utf8(t.head()) + encode_utf8(decimal(byte_len(content)));
            let n = h.len() as int;
            &&& is_prefix_of(encode_utf8(ok_status_line()), b)
            &&& blank_line_at(b, n)
            &&& forall|i: int| 0 <= i < n ==> !blank_line_at(b, i)
            &&& b.take(n) == h
            &&& ends_with(t.head(), t.length_lead())
            &&& parse_usize(decimal(byte_len(content))) == Some(byte_len(content) as usize)
            &&& b.skip(n + 4) == encode_utf8(content)
        }),
{
    lemma_heads_well_formed();
    lemma_framed_first_blank_line(t.head(), t.length_lead(), content);
}

// ---------------------------------------------------------------------------
// The connection loop
// ---------------------------------------------------------------------------

/// What the connection loop does with a request.
pub enum Action {
    /// Stop serving the connection, without answering.
    Close,
    /// Send these bytes.
    Respond(Vec<u8>),
    /// Send the named file from the served directory (see `file_response`).
    ServeFile(String),
}

/// The contents of an `Action`.
pub enum ActionView {
    Close,
    Respond(Seq<u8>),
    ServeFile(Seq<char>),
}

impl View for Action {
    type V = ActionView;

    open spec fn view(&self) -> ActionView {
        match self {
            Action::Close => ActionView::Close,
            Action::Respond(b) => ActionView::Respond(b@),
            Action::ServeFile(f) => ActionView::ServeFile(f@),
        }
    }
}

impl Request {
    /// The path segment at `i`, or `default` when there is none.
    pub open spec fn segment_or(self, i: int, default: Seq<char>) -> Seq<char> {
        if 0 <= i < self.path@.len() {
            self.path@[i]@
        } else {
            default
        }
    }

    /// The request asks for the connection to be closed.
    pub open spec fn asks_close(self) -> bool {
        self.headers@.contains_key("connection"@) && self.headers@["connection"@] == "close"@
    }

    /// A `GET` of the resource named by the first segment `name`.
    pub open spec fn gets(self, name: Seq<char>) -> bool {
        self.method@ == "GET"@ && self.segment_or(1, "_"@) == name
    }

    /// The requests that `route` handles; on the others the server gives up
    /// (a route that needs a second segment or a `user-agent` field without one).
    pub open spec fn routable(self) -> bool {
        ||| self.asks_close()
        ||| {
            &&& self.gets("echo"@) ==> self.path@.len() > 2
            &&& self.gets("user-agent"@) ==> self.headers@.contains_key("user-agent"@)
            &&& self.gets("files"@) ==> self.path@.len() > 2
        }
    }

    /// What the connection loop does with this request: close when asked to;
    /// `GET /echo/x` answers `x` as plain text; `GET /` answers an empty
    /// `200 OK`; `GET /user-agent` answers the `user-agent` field without its
    /// trailing whitespace; `GET /files/f` serves file `f`; anything else is
    /// `404 Not Found`.
    pub open spec fn action(self) -> ActionView {
        if self.asks_close() {
            ActionView::Close
        } else if self.gets("echo"@) {
            ActionView::Respond(encode_utf8(HttpTemplates::PlainText.text(self.path@[2]@)))
        } else if self.gets(""@) {
            ActionView::Respond(encode_utf8(HttpTemplates::Slash.text(""@)))
        } else if self.gets("user-agent"@) {
            ActionView::Respond(
                encode_utf8(
                    HttpTemplates::PlainText.text(
                        trim_end_white_space(self.headers@["user-agent"@]),
                    ),
                ),
            )
        } else if self.gets("files"@) {
            ActionView::ServeFile(self.path@[2]@)
        } else {
            ActionView::Respond(encode_utf8(HttpTemplates::NotFound.text(""@)))
        }
    }

    /// Whether the request asks for the connection to be closed.
    pub fn closes_connection(&self) -> (r: bool)
        ensures
            r == self.asks_close(),
    {
        match self.headers.get("connection") {
            Some(c) => same_text(c.as_str(), "close"),
            None => false,
        }
    }

    /// Whether the method is `GET` and the first segment is `name`.
    fn gets_resource(&self, name: &str) -> (r: bool)
        ensures
            r == self.gets(name@),
    {
        let first = match self.segment(1) {
            Some(s) => s,
            None => "_",
        };
        same_text(self.method.as_str(), "GET") && same_text(first, name)
    }

    /// Whether `action` handles this request.
    pub fn can_route(&self) -> (r: bool)
        ensures
            r == self.routable(),
    {
        if self.closes_connection() {
            return true;
        }
        let long = self.path.len() > 2;
        (!self.gets_resource("echo") || long) && (!self.gets_resource("user-agent")
            || self.headers.get("user-agent").is_some()) && (!self.gets_resource("files") || long)
    }

    /// Decides what the connection loop does with this request.
    pub fn route(&self) -> (r: Action)
        requires
            self.routable(),
        ensures
            r@ == self.action(),
    {
        if self.closes_connection() {
            Action::Close
        } else if self.gets_resource("echo") {
            Action::Respond(HttpTemplates::PlainText.format(self.path[2].as_str()))
        } else if self.gets_resource("") {
            Action::Respond(HttpTemplates::Slash.format(""))
        } else if self.gets_resource("user-agent") {
            let agent = self.headers.get("user-agent").unwrap();
            let trimmed = trim_end(agent.as_str());
            Action::Respond(HttpTemplates::PlainText.format(trimmed.as_str()))
        } else if self.gets_resource("files") {
            Action::ServeFile(self.path[2].clone())
        } else {
            Action::Respond(HttpTemplates::NotFound.format(""))
        }
    }
}

/// The answer to a file request: the file's contents as a binary `200 OK`,
/// or `404 Not Found` when it could not be read.
pub fn file_response(contents: Option<&str>) -> (r: Vec<u8>)
    ensures
        r@ == encode_utf8(
            match contents {
                Some(c) => HttpTemplates::OctetStream.text(c@),
                None => HttpTemplates::NotFound.text(""@),
            },
        ),
{
    match contents {
        Some(c) => HttpTemplates::OctetStream.format(c),
        None => HttpTemplates::NotFound.format(""),
    }
}

// ---------------------------------------------------------------------------
// What the connection loop answers
// ---------------------------------------------------------------------------

/// A request asks to close the connection exactly when it has a `connection`
/// field whose value is `close`.
pub proof fn lemma_close_exactly(req: Request)
    ensures
        req.asks_close() <==> (req.headers@.contains_key("connection"@)
            && req.headers@["connection"@] == "close"@),
{
}

/// The answer of the connection loop for each kind of request, with the first
/// path segment taken as `_` when there is none:
/// - a request whose `connection` field is `close` closes the connection;
/// - otherwise a method other than `GET` gets `404 Not Found`;
/// - `GET` with first segment empty (target `/`) gets an empty `200 OK`;
/// - `GET /echo/x...` gets `x` as a plain-text `200 OK`;
/// - `GET /user-agent` gets the `user-agent` field, trailing whitespace removed,
///   as a plain-text `200 OK`;
/// - `GET /files/f...` serves file `f`;
/// - `GET` of any other first segment gets `404 Not Found`.
pub proof fn lemma_route_answers(req: Request)
    ensures
        ({
            let h = req.headers@;
            let close = h.contains_key("connection"@) && h["connection"@] == "close"@;
            let get = req.method@ == "GET"@;
            let p = req.path@;
            let first = if p.len() > 1 {
                p[1]@
            } else {
                "_"@
            };
            let not_found = ActionView::Respond(
                encode_utf8("HTTP/1.1 404 Not Found\r\n\r\n"@),
            );
            &&& close ==> req.action() == ActionView::Close
            &&& !close && !get ==> req.action() == not_found
            &&& !close && get && first != ""@ && first != "echo"@ && first != "user-agent"@
                && first != "files"@ ==> req.action() == not_found
            &&& !close && get && first == ""@ ==> req.action() == ActionView::Respond(
                encode_utf8("HTTP/1.1 200 OK\r\n\r\n"@),
            )
            &&& !close && get && first == "echo"@ && p.len() > 2 ==> req.action()
                == ActionView::Respond(encode_utf8(framed(PLAIN_TEXT_HEAD@, p[2]@)))
            &&& !close && get && first == "user-agent"@ && h.contains_key("user-agent"@)
                ==> req.action() == ActionView::Respond(
                encode_utf8(framed(PLAIN_TEXT_HEAD@, trim_end_white_space(h["user-agent"@]))),
            )
            &&& !close && get && first == "files"@ && p.len() > 2 ==> req.action()
                == ActionView::ServeFile(p[2]@)
        }),
{
    reveal_strlit("");
    reveal_strlit("_");
    reveal_strlit("echo");
    reveal_strlit("user-agent");
    reveal_strlit("files");
    reveal_strlit("HTTP/1.1 404 Not Found\r\n\r\n");
    reveal_strlit("HTTP/1.1 200 OK\r\n\r\n");
    assert(NOT_FOUND@ == "HTTP/1.1 404 Not Found\r\n\r\n"@);
    assert(OK_EMPTY@ == "HTTP/1.1 200 OK\r\n\r\n"@);
    let h = req.headers@;
    let close = h.contains_key("connection"@) && h["connection"@] == "close"@;
    let get = req.method@ == "GET"@;
    let p = req.path@;
    let first = if p.len() > 1 { p[1]@ } else { "_"@ };
    assert(first == req.segment_or(1, "_"@));
    assert(close == req.asks_close());
    let not_found = ActionView::Respond(encode_utf8("HTTP/1.1 404 Not Found\r\n\r\n"@));
    assert(close ==> req.action() == ActionView::Close);
    assert(!close && !get ==> req.action() == not_found);
    assert(!close && get && first != ""@ && first != "echo"@ && first != "user-agent"@
                && first != "files"@ ==> req.action() == not_found);
    assert(!close && get && first == ""@ ==> req.action() == ActionView::Respond(
                encode_utf8("HTTP/1.1 200 OK\r\n\r\n"@)));
}

/// The connection loop answers every request except those it cannot: a `GET`
/// of `/echo` or `/files` without a second segment, and a `GET` of
/// `/user-agent` without a `user-agent` field (unless the request closes the
/// connection). In particular `GET /` is always answered.
pub proof fn lemma_routable_exactly(req: Request)
    ensures
        ({
            let h = req.headers@;
            let close = h.contains_key("connection"@) && h["connection"@] == "close"@;
            let get = req.method@ == "GET"@;
            let p = req.path@;
            let first = if p.len() > 1 {
                p[1]@
            } else {
                "_"@
            };
            req.routable() <==> (close || !(get && (((first == "echo"@ || first == "files"@)
                && p.len() <= 2) || (first == "user-agent"@ && !h.contains_key(
                "user-agent"@,
            )))))
        }),
{
    reveal_strlit("echo");
    reveal_strlit("user-agent");
    reveal_strlit("files");
}

/// The templates without a body ignore the content and give fixed responses.
pub proof fn lemma_fixed_templates(content: Seq<char>)
    ensures
        HttpTemplates::Created.text(content) == "HTTP/1.1 201 Created\r\n\r\n"@,
        HttpTemplates::NotFound.text(content) == "HTTP/1.1 404 Not Found\r\n\r\n"@,
        HttpTemplates::Slash.text(content) == "HTTP/1.1 200 OK\r\n\r\n"@,
{
    assert(CREATED@ == "HTTP/1.1 201 Created\r\n\r\n"@);
    assert(NOT_FOUND@ == "HTTP/1.1 404 Not Found\r\n\r\n"@);
    assert(OK_EMPTY@ == "HTTP/1.1 200 OK\r\n\r\n"@);
}

} // verus!

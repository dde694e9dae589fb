//! The server whose requests keep their path as one string: parsing a
//! request, the response templates as text, and the decisions that the
//! connection loop takes for each request.
use vstd::prelude::*;
use vstd::utf8::*;
use crate::body::Body;
use crate::decimal::{parse_decimal, parse_usize};
use crate::headers::{header_map, headers_from_lines, Headers};
use crate::response::{
    framed, framed_response, CREATED, JSON_HEAD, NOT_FOUND, OCTET_STREAM_HEAD, OK_EMPTY,
    PLAIN_TEXT_HEAD,
};
use crate::segmented::HttpTemplates;
use crate::text::{first_line, first_line_of, has_prefix, is_prefix, join_with, lemma_split_join,
    lemma_seg_len_bound, same_text, seg_len, split_on, split_whitespace, strip_prefix, tokens};

verus! {

/// An HTTP request.
#[derive(Debug)]
pub struct Request {
    pub method: String,
    /// The request target, as sent.
    pub path: String,
    pub protocol: String,
    pub headers: Headers,
    pub body: Option<Body>,
}

/// The token at `i`, or the empty text when there are fewer tokens.
pub open spec fn token_or_empty(t: Seq<Seq<char>>, i: int) -> Seq<char> {
    if 0 <= i < t.len() {
        t[i]
    } else {
        Seq::empty()
    }
}

/// Reads a request from the first line read from a connection and the header
/// lines that follow it (up to, not including, the line that ends the header
/// block). The first line of `line` is split at whitespace into method, target
/// and protocol, each empty when missing. Each header line with a `": "` gives
/// a field, name lowercased and value lowercased after its trailing CRLFs are
/// removed. The request has no body.
pub fn read_headers(line: &str, header_lines: &Vec<String>) -> (r: Request)
    ensures
        ({
            let t = tokens(first_line(line@));
            &&& r.method@ == token_or_empty(t, 0)
            &&& r.path@ == token_or_empty(t, 1)
            &&& r.protocol@ == token_or_empty(t, 2)
            &&& r.headers@ == header_map(header_lines.deep_view(), true)
            &&& r.body is None
        }),
{
    let first = first_line_of(line);
    let t = split_whitespace(first.as_str());
    assert(t.deep_view().len() == t@.len());
    let method = if t.len() > 0 {
        assert(t@[0]@ == t.deep_view()[0]);
        t[0].clone()
    } else {
        String::new()
    };
    let path = if t.len() > 1 {
        assert(t@[1]@ == t.deep_view()[1]);
        t[1].clone()
    } else {
        String::new()
    };
    let protocol = if t.len() > 2 {
        assert(t@[2]@ == t.deep_view()[2]);
        t[2].clone()
    } else {
        String::new()
    };
    let headers = headers_from_lines(header_lines, true);
    Request { method, path, protocol, headers, body: None }
}

/// Response templates; `format` renders one as text.
pub enum HttpTemplate {
    PlainText,
    OctetStream,
    Json,
    Created,
    NotFound,
}

impl HttpTemplate {
    /// The response text of this template for `content`.
    pub open spec fn text(self, content: Seq<char>) -> Seq<char> {
        match self {
            HttpTemplate::PlainText => framed(PLAIN_TEXT_HEAD@, content),
            HttpTemplate::OctetStream => framed(OCTET_STREAM_HEAD@, content),
            HttpTemplate::Json => framed(JSON_HEAD@, content),
            HttpTemplate::Created => CREATED@,
            HttpTemplate::NotFound => NOT_FOUND@,
        }
    }

    /// The response text for `content`. The `200 OK` templates carry
    /// `content` as the body with its byte length as `Content-Length`;
    /// the others ignore `content`.
    pub fn format(self, content: &String) -> (r: String)
        ensures
            r@ == self.text(content@),
    {
        match self {
            HttpTemplate::PlainText => framed_response(PLAIN_TEXT_HEAD, content.as_str()),
            HttpTemplate::OctetStream => framed_response(OCTET_STREAM_HEAD, content.as_str()),
            HttpTemplate::Json => framed_response(JSON_HEAD, content.as_str()),
            HttpTemplate::Created => CREATED.to_owned(),
            HttpTemplate::NotFound => Self::not_found(),
        }
    }

    /// The `404 Not Found` response.
    pub fn not_found() -> (r: String)
        ensures
            r@ == NOT_FOUND@,
    {
        NOT_FOUND.to_owned()
    }
}

/// Both servers send the same response for the same template and content:
/// the bytes of each `HttpTemplates` response are the UTF-8 encoding of the
/// text of the `HttpTemplate` of the same name.
pub proof fn lemma_templates_agree(content: Seq<char>)
    ensures
        HttpTemplates::PlainText.text(content) == HttpTemplate::PlainText.text(content),
        HttpTemplates::OctetStream.text(content) == HttpTemplate::OctetStream.text(content),
        HttpTemplates::Json.text(content) == HttpTemplate::Json.text(content),
        HttpTemplates::Created.text(content) == HttpTemplate::Created.text(content),
        HttpTemplates::NotFound.text(content) == HttpTemplate::NotFound.text(content),
{
}

/// Both servers read a one-line request line alike: when the line holds no
/// line feed and has at least three words, the path segments that
/// `segmented::Request::from_lines` keeps join with `/` into the target that
/// `read_headers` keeps, and method and protocol are the same words.
pub proof fn lemma_servers_read_request_lines_alike(line: Seq<char>)
    requires
        forall|i: int| 0 <= i < line.len() ==> line[i] != '\n',
        tokens(line).len() >= 3,
    ensures
        ({
            let t = tokens(first_line(line));
            &&& t == tokens(line)
            &&& token_or_empty(t, 0) == tokens(line)[0]
            &&& token_or_empty(t, 1) == join_with(split_on(tokens(line)[1], '/'), '/')
            &&& token_or_empty(t, 2) == tokens(line)[2]
        }),
{
    lemma_seg_len_bound(line, '\n');
    if seg_len(line, '\n') < line.len() {
        assert(line[seg_len(line, '\n') as int] == '\n');
    }
    assert(line.take(line.len() as int) =~= line);
    assert(first_line(line) == line);
    lemma_split_join(tokens(line)[1], '/');
}

// ---------------------------------------------------------------------------
// The connection loop
// ---------------------------------------------------------------------------

/// What the connection loop does with a request.
pub enum Action {
    /// Send this text.
    Respond(String),
    /// Send the named file from the served directory (see `file_response`).
    ServeFile(String),
    /// Read the body (its length is `Request::content_length`), store it as
    /// the named file in the served directory, then send `reply`.
    StoreFile { name: String, reply: String },
}

/// The contents of an `Action`.
pub enum ActionView {
    Respond(Seq<char>),
    ServeFile(Seq<char>),
    StoreFile(Seq<char>, Seq<char>),
}

impl View for Action {
    type V = ActionView;

    open spec fn view(&self) -> ActionView {
        match self {
            Action::Respond(t) => ActionView::Respond(t@),
            Action::ServeFile(f) => ActionView::ServeFile(f@),
            Action::StoreFile { name, reply } => ActionView::StoreFile(name@, reply@),
        }
    }
}

impl Request {
    /// The request asks for the connection to be closed.
    pub open spec fn asks_close(self) -> bool {
        self.headers@.contains_key("connection"@) && self.headers@["connection"@] == "close"@
    }

    /// The requests that `route` handles; on the others the server gives up
    /// (a target that starts with `/echo` but not with `/echo/`).
    pub open spec fn routable(self) -> bool {
        is_prefix("/echo"@, self.path@) && self.path@ != "/"@ ==> is_prefix("/echo/"@, self.path@)
    }

    /// The target is under `/files/`, a directory is served, and the method is `method`.
    pub open spec fn file_request(self, has_dir: bool, method: Seq<char>) -> bool {
        is_prefix("/files/"@, self.path@) && has_dir && self.method@ == method
    }

    /// What the connection loop does with this request, given whether a
    /// directory is served: `/` answers an empty `200 OK`; `/echo/x` answers
    /// `x` as plain text; `/user-agent...` answers the `user-agent` field (or
    /// nothing) as plain text; `GET /files/f` serves file `f`; `POST /files/f`
    /// stores the body as `f` and answers `201 Created`; anything else is
    /// `404 Not Found`.
    pub open spec fn action(self, has_dir: bool) -> ActionView {
        let p = self.path@;
        if p == "/"@ {
            ActionView::Respond(OK_EMPTY@)
        } else if is_prefix("/echo"@, p) {
            ActionView::Respond(HttpTemplate::PlainText.text(p.skip("/echo/"@.len() as int)))
        } else if is_prefix("/user-agent"@, p) {
            ActionView::Respond(
                HttpTemplate::PlainText.text(
                    if self.headers@.contains_key("user-agent"@) {
                        self.headers@["user-agent"@]
                    } else {
                        Seq::empty()
                    },
                ),
            )
        } else if self.file_request(has_dir, "GET"@) {
            ActionView::ServeFile(p.skip("/files/"@.len() as int))
        } else if self.file_request(has_dir, "POST"@) {
            ActionView::StoreFile(p.skip("/files/"@.len() as int), HttpTemplate::Created.text(p.skip("/files/"@.len() as int)))
        } else {
            ActionView::Respond(NOT_FOUND@)
        }
    }

    /// Whether the request asks for the connection to be closed.
    pub fn closes_connection(&self) -> (r: bool)
        ensures
            r == self.asks_close(),
    {
        match self.headers.get("connection") {
            Some(c) => same_text(c.as_str(), "close"),
            None => false,
        }
    }

    /// The value of the `content-length` field as a number, if it is there
    /// and reads as one.
    pub fn content_length(&self) -> (r: Option<usize>)
        ensures
            r == (if self.headers@.contains_key("content-length"@) {
                parse_usize(self.headers@["content-length"@])
            } else {
                None
            }),
    {
        match self.headers.get("content-length") {
            Some(v) => parse_decimal(v.as_str()),
            None => None,
        }
    }

    /// Whether `route` handles this request.
    pub fn can_route(&self) -> (r: bool)
        ensures
            r == self.routable(),
    {
        let p = self.path.as_str();
        !(has_prefix(p, "/echo") && !same_text(p, "/")) || has_prefix(p, "/echo/")
    }

    /// Whether this is a file request with the given method.
    fn is_file_request(&self, has_dir: bool, method: &str) -> (r: bool)
        ensures
            r == self.file_request(has_dir, method@),
    {
        has_prefix(self.path.as_str(), "/files/") && has_dir && same_text(self.method.as_str(), method)
    }

    /// Decides what the connection loop does with this request.
    pub fn route(&self, has_dir: bool) -> (r: Action)
        requires
            self.routable(),
        ensures
            r@ == self.action(has_dir),
    {
        let p = self.path.as_str();
        if same_text(p, "/") {
            Action::Respond(OK_EMPTY.to_owned())
        } else if has_prefix(p, "/echo") {
            let echo = strip_prefix(p, "/echo/").unwrap();
            Action::Respond(HttpTemplate::PlainText.format(&echo))
        } else if has_prefix(p, "/user-agent") {
            let agent = match self.headers.get("user-agent") {
                Some(a) => a.clone(),
                None => String::new(),
            };
            Action::Respond(HttpTemplate::PlainText.format(&agent))
        } else if self.is_file_request(has_dir, "GET") {
            Action::ServeFile(strip_prefix(p, "/files/").unwrap())
        } else if self.is_file_request(has_dir, "POST") {
            let name = strip_prefix(p, "/files/").unwrap();
            let reply = HttpTemplate::Created.format(&name);
            Action::StoreFile { name, reply }
        } else {
            Action::Respond(HttpTemplate::not_found())
        }
    }
}

/// The answer to a file request: the file's contents as a binary `200 OK`,
/// or `404 Not Found` when it could not be read.
pub fn file_response(contents: Option<&String>) -> (r: String)
    ensures
        r@ == (match contents {
            Some(c) => HttpTemplate::OctetStream.text(c@),
            None => NOT_FOUND@,
        }),
{
    match contents {
        Some(c) => HttpTemplate::OctetStream.format(c),
        None => HttpTemplate::not_found(),
    }
}

// ---------------------------------------------------------------------------
// What the connection loop answers
// ---------------------------------------------------------------------------

/// A request asks to close the connection exactly when it has a `connection`
/// field whose value is `close`; any other value, such as `keep-alive`,
/// keeps it open.
pub proof fn lemma_close_exactly(req: Request)
    ensures
        req.asks_close() <==> (req.headers@.contains_key("connection"@)
            && req.headers@["connection"@] == "close"@),
{
}

/// The connection loop answers every request except one whose target starts
/// with `/echo` but not with `/echo/`. In particular the target `/` is answered.
pub proof fn lemma_routable_exactly(req: Request)
    ensures
        req.routable() <==> !(is_prefix("/echo"@, req.path@) && !is_prefix("/echo/"@, req.path@)),
        req.path@ == "/"@ ==> req.routable(),
{
    reveal_strlit("/");
    reveal_strlit("/echo");
    reveal_strlit("/echo/");
    if req.path@ == "/"@ {
        assert(!is_prefix("/echo"@, req.path@));
    }
}

/// The answer of the connection loop for each kind of target:
/// - `/` gets an empty `200 OK`;
/// - `/echo/x` gets `x` as a plain-text `200 OK`;
/// - a target starting with `/user-agent` gets the `user-agent` field (empty
///   without one) as a plain-text `200 OK`;
/// - `/files/f` with a served directory serves `f` to `GET`, and for `POST`
///   stores the body as `f` and answers `201 Created`;
/// - every other target, and `/files/f` with another method or no served
///   directory, gets `404 Not Found`.
pub proof fn lemma_route_answers(req: Request, has_dir: bool)
    ensures
        ({
            let p = req.path@;
            let h = req.headers@;
            let m = req.method@;
            let not_found = ActionView::Respond("HTTP/1.1 404 Not Found\r\n\r\n"@);
            &&& p == "/"@ ==> req.action(has_dir) == ActionView::Respond(
                "HTTP/1.1 200 OK\r\n\r\n"@,
            )
            &&& is_prefix("/echo/"@, p) ==> req.action(has_dir) == ActionView::Respond(
                framed(PLAIN_TEXT_HEAD@, p.skip(6)),
            )
            &&& is_prefix("/user-agent"@, p) ==> req.action(has_dir) == ActionView::Respond(
                framed(
                    PLAIN_TEXT_HEAD@,
                    if h.contains_key("user-agent"@) {
                        h["user-agent"@]
                    } else {
                        Seq::empty()
                    },
                ),
            )
            &&& is_prefix("/files/"@, p) && has_dir && m == "GET"@ ==> req.action(has_dir)
                == ActionView::ServeFile(p.skip(7))
            &&& is_prefix("/files/"@, p) && has_dir && m == "POST"@ ==> req.action(has_dir)
                == ActionView::StoreFile(p.skip(7), "HTTP/1.1 201 Created\r\n\r\n"@)
            &&& p != "/"@ && !is_prefix("/echo"@, p) && !is_prefix("/user-agent"@, p) && !(
            is_prefix("/files/"@, p) && has_dir && (m == "GET"@ || m == "POST"@)) ==> req.action(
                has_dir,
            ) == not_found
        }),
{
    reveal_strlit("/");
    reveal_strlit("/echo");
    reveal_strlit("/echo/");
    reveal_strlit("/user-agent");
    reveal_strlit("/files/");
    reveal_strlit("GET");
    reveal_strlit("POST");
    reveal_strlit("HTTP/1.1 404 Not Found\r\n\r\n");
    reveal_strlit("HTTP/1.1 200 OK\r\n\r\n");
    reveal_strlit("HTTP/1.1 201 Created\r\n\r\n");
    assert(NOT_FOUND@ == "HTTP/1.1 404 Not Found\r\n\r\n"@);
    assert(OK_EMPTY@ == "HTTP/1.1 200 OK\r\n\r\n"@);
    assert(CREATED@ == "HTTP/1.1 201 Created\r\n\r\n"@);
    assert("POST"@.len() != "GET"@.len());
    let p = req.path@;
    if is_prefix("/echo/"@, p) {
        assert(p.take(5) =~= p.take(6).take(5));
        assert("/echo/"@.take(5) =~= "/echo"@);
        assert(is_prefix("/echo"@, p));
        assert(p != "/"@);
    }
    if is_prefix("/user-agent"@, p) {
        assert(p[1] == p.take(11)[1]);
        assert(p != "/"@);
        assert(!is_prefix("/echo"@, p)) by {
            if is_prefix("/echo"@, p) {
                assert(p[1] == p.take(5)[1]);
            }
        }
    }
    let h = req.headers@;
    let m = req.method@;
    assert(p == "/"@ ==> req.action(has_dir) == ActionView::Respond("HTTP/1.1 200 OK\r\n\r\n"@));
    assert(is_prefix("/echo/"@, p) ==> req.action(has_dir) == ActionView::Respond(
        framed(PLAIN_TEXT_HEAD@, p.skip(6))));
    if is_prefix("/files/"@, p) {
        assert(p[1] == p.take(7)[1]);
        assert(p != "/"@);
        assert(!is_prefix("/echo"@, p)) by {
            if is_prefix("/echo"@, p) {
                assert(p[1] == p.take(5)[1]);
            }
        }
        assert(!is_prefix("/user-agent"@, p)) by {
            if is_prefix("/user-agent"@, p) {
                assert(p[1] == p.take(11)[1]);
            }
        }
    }
    assert(is_prefix("/user-agent"@, p) ==> req.action(has_dir) == ActionView::Respond(
        framed(PLAIN_TEXT_HEAD@, if h.contains_key("user-agent"@) { h["user-agent"@] } else {
            Seq::empty()
        })));
    assert(is_prefix("/files/"@, p) && has_dir && m == "GET"@ ==> req.action(has_dir)
        == ActionView::ServeFile(p.skip(7)));
    assert(is_prefix("/files/"@, p) && has_dir && m == "POST"@ ==> req.action(has_dir)
        == ActionView::StoreFile(p.skip(7), "HTTP/1.1 201 Created\r\n\r\n"@));
    assert(p != "/"@ && !is_prefix("/echo"@, p) && !is_prefix("/user-agent"@, p) && !(
    is_prefix("/files/"@, p) && has_dir && (m == "GET"@ || m == "POST"@)) ==> req.action(has_dir)
        == ActionView::Respond("HTTP/1.1 404 Not Found\r\n\r\n"@));
}

} // verus!

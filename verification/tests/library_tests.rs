use http_server_lib::args::read_args;
use http_server_lib::body::Body;
use http_server_lib::headers::{headers_from_lines, Headers};
use http_server_lib::raw_path::{self, read_headers, HttpTemplate};
use http_server_lib::segmented::{self, HttpTemplates, ParseError, Request};

fn lines(ls: &[&str]) -> Vec<String> {
    ls.iter().map(|l| l.to_string()).collect()
}

fn text(bytes: &[u8]) -> String {
    String::from_utf8(bytes.to_vec()).unwrap()
}

// ----- response templates -----

#[test]
fn templates_render_exact_bytes() {
    assert_eq!(
        text(&HttpTemplates::PlainText.format("abc")),
        "HTTP/1.1 200 OK\r\nContent-Type: text/plain\r\nContent-Length: 3\r\n\r\nabc"
    );
    assert_eq!(
        text(&HttpTemplates::OctetStream.format("hello")),
        "HTTP/1.1 200 OK\r\nContent-Type: application/octet-stream\r\nContent-Length:5\r\n\r\nhello"
    );
    assert_eq!(
        text(&HttpTemplates::Json.format("{}")),
        "HTTP/1.1 200 OK\r\nContent-Type: application/json\r\nContent-Length:2\r\n\r\n{}"
    );
    assert_eq!(HttpTemplates::Created.format("x"), b"HTTP/1.1 201 Created\r\n\r\n".to_vec());
    assert_eq!(HttpTemplates::NotFound.format("x"), b"HTTP/1.1 404 Not Found\r\n\r\n".to_vec());
    assert_eq!(HttpTemplates::Slash.format(""), b"HTTP/1.1 200 OK\r\n\r\n".to_vec());
}

#[test]
fn content_length_counts_bytes() {
    let r = text(&HttpTemplates::PlainText.format("ü€"));
    assert_eq!(r, "HTTP/1.1 200 OK\r\nContent-Type: text/plain\r\nContent-Length: 5\r\n\r\nü€");
    let long = "x".repeat(1234);
    let r = HttpTemplate::PlainText.format(&long);
    assert!(r.contains("Content-Length: 1234\r\n\r\n"));
    assert!(r.ends_with(&long));
}

#[test]
fn declared_length_matches_body() {
    for content in ["", "a", "ü€😀", "line\r\n\r\nwith blank"] {
        let r = HttpTemplates::PlainText.format(content);
        let s = text(&r);
        let (head, body) = s.split_once("\r\n\r\n").unwrap();
        let declared: usize = head.rsplit(' ').next().unwrap().parse().unwrap();
        assert_eq!(declared, body.len());
        assert_eq!(body, content);
    }
}

#[test]
fn text_templates_render_exact_text() {
    let c = "abc".to_string();
    assert_eq!(
        HttpTemplate::PlainText.format(&c),
        "HTTP/1.1 200 OK\r\nContent-Type: text/plain\r\nContent-Length: 3\r\n\r\nabc"
    );
    assert_eq!(HttpTemplate::Created.format(&c), "HTTP/1.1 201 Created\r\n\r\n");
    assert_eq!(HttpTemplate::NotFound.format(&c), "HTTP/1.1 404 Not Found\r\n\r\n");
    assert_eq!(HttpTemplate::not_found(), "HTTP/1.1 404 Not Found\r\n\r\n");
}

#[test]
fn both_servers_render_the_same_responses() {
    for c in ["", "x", "ü€"] {
        let s = c.to_string();
        assert_eq!(HttpTemplates::PlainText.format(c), HttpTemplate::PlainText.format(&s).into_bytes());
        assert_eq!(HttpTemplates::OctetStream.format(c), HttpTemplate::OctetStream.format(&s).into_bytes());
        assert_eq!(HttpTemplates::Json.format(c), HttpTemplate::Json.format(&s).into_bytes());
        assert_eq!(HttpTemplates::Created.format(c), HttpTemplate::Created.format(&s).into_bytes());
        assert_eq!(HttpTemplates::NotFound.format(c), HttpTemplate::NotFound.format(&s).into_bytes());
    }
}

// ----- bodies -----

#[test]
fn body_from_bytes_is_text_when_utf8() {
    let b = Body::from_bytes("héllo".as_bytes().to_vec());
    assert!(matches!(&b, Body::Text(s) if s == "héllo"));
    assert_eq!(b.as_text(), Some("héllo"));
    assert_eq!(b.as_bytes(), "héllo".as_bytes());
}

#[test]
fn body_from_bytes_is_binary_otherwise() {
    let raw = vec![0xff, 0xfe, 0x00, 0x41];
    let b = Body::from_bytes(raw.clone());
    assert!(matches!(&b, Body::Binary(v) if *v == raw));
    assert_eq!(b.as_text(), None);
    assert_eq!(b.as_bytes(), &raw[..]);
}

#[test]
fn body_keeps_its_bytes() {
    for raw in [vec![], vec![0x41, 0x42], vec![0xc3, 0x28], vec![0xe2, 0x82, 0xac], vec![0xed, 0xa0, 0x80]] {
        assert_eq!(Body::from_bytes(raw.clone()).as_bytes(), &raw[..]);
    }
}

#[test]
fn body_from_string() {
    let b = Body::from_string("t".to_string());
    assert_eq!(b.as_text(), Some("t"));
    assert_eq!(b.as_bytes(), b"t");
}

// ----- headers -----

#[test]
fn headers_read_back_what_was_written() {
    let mut h = Headers::new();
    assert_eq!(h.get("a"), None);
    h.insert("a".to_string(), "1".to_string());
    h.insert("b".to_string(), "2".to_string());
    h.insert("a".to_string(), "3".to_string());
    assert_eq!(h.get("a").map(|s| s.as_str()), Some("3"));
    assert_eq!(h.get("b").map(|s| s.as_str()), Some("2"));
    assert_eq!(h.get("c"), None);
}

#[test]
fn header_lines_are_lowercased() {
    let h = headers_from_lines(&lines(&["Host: LocalHost\r\n", "garbage\r\n", "User-Agent: Foo/1.0\r\n"]), true);
    assert_eq!(h.get("host").map(|s| s.as_str()), Some("localhost"));
    assert_eq!(h.get("user-agent").map(|s| s.as_str()), Some("foo/1.0"));
    assert_eq!(h.get("Host"), None);
    let h = headers_from_lines(&lines(&["Host: LocalHost\r\n"]), false);
    assert_eq!(h.get("host").map(|s| s.as_str()), Some("localhost\r\n"));
}

// ----- segmented requests -----

#[test]
fn request_line_errors() {
    assert!(matches!(Request::from_lines("", &Vec::new()), Err(ParseError::MissingMethod)));
    assert!(matches!(Request::from_lines("  \r\n", &Vec::new()), Err(ParseError::MissingMethod)));
    assert!(matches!(Request::from_lines("GET /x\r\n", &Vec::new()), Err(ParseError::MissingProtocol)));
    assert_eq!(ParseError::MissingMethod.message(), "missing method");
    assert_eq!(ParseError::MissingProtocol.message(), "missing protocol");
}

fn parse(line: &str, hs: &[&str]) -> Request {
    match Request::from_lines(line, &lines(hs)) {
        Ok(r) => r,
        Err(e) => panic!("{}", e.message()),
    }
}

#[test]
fn request_is_parsed_into_segments() {
    let req = parse("GET /echo/abc HTTP/1.1\r\n", &["Host: localhost:4221\r\n", "User-Agent: Foo\r\n"]);
    assert_eq!(req.method, "GET");
    assert_eq!(req.path, vec!["", "echo", "abc"]);
    assert_eq!(req.protocol, "HTTP/1.1");
    assert_eq!(req.headers.get("host").map(|s| s.as_str()), Some("localhost:4221\r\n"));
    assert_eq!(req.segment(1), Some("echo"));
    assert_eq!(req.segment(2), Some("abc"));
    assert_eq!(req.segment(3), None);
    assert!(matches!(&req.body, Some(Body::Text(s)) if s.is_empty()));
}

fn action_bytes(a: segmented::Action) -> Vec<u8> {
    match a {
        segmented::Action::Respond(b) => b,
        _ => panic!("expected a response"),
    }
}

#[test]
fn segmented_routes() {
    let echo = parse("GET /echo/hey HTTP/1.1", &[]);
    assert!(echo.can_route());
    assert_eq!(action_bytes(echo.route()), HttpTemplates::PlainText.format("hey"));

    let root = parse("GET / HTTP/1.1", &[]);
    assert_eq!(action_bytes(root.route()), b"HTTP/1.1 200 OK\r\n\r\n".to_vec());

    let ua = parse("GET /user-agent HTTP/1.1", &["User-Agent: Foo/1\r\n"]);
    assert_eq!(action_bytes(ua.route()), HttpTemplates::PlainText.format("foo/1"));

    let file = parse("GET /files/a.txt HTTP/1.1", &[]);
    assert!(matches!(file.route(), segmented::Action::ServeFile(f) if f == "a.txt"));

    let other = parse("POST /echo/x HTTP/1.1", &[]);
    assert_eq!(action_bytes(other.route()), b"HTTP/1.1 404 Not Found\r\n\r\n".to_vec());

    let close = parse("GET / HTTP/1.1", &["Connection: close"]);
    assert!(close.closes_connection());
    assert!(matches!(close.route(), segmented::Action::Close));

    let close_crlf = parse("GET / HTTP/1.1", &["Connection: close\r\n"]);
    assert!(!close_crlf.closes_connection());
}

#[test]
fn segmented_unroutable_requests() {
    assert!(!parse("GET /echo HTTP/1.1", &[]).can_route());
    assert!(!parse("GET /files HTTP/1.1", &[]).can_route());
    assert!(!parse("GET /user-agent HTTP/1.1", &[]).can_route());
    assert!(parse("GET /user-agent HTTP/1.1", &["Connection: close"]).can_route());
}

#[test]
fn segmented_file_response() {
    assert_eq!(segmented::file_response(Some("data")), HttpTemplates::OctetStream.format("data"));
    assert_eq!(segmented::file_response(None), b"HTTP/1.1 404 Not Found\r\n\r\n".to_vec());
}

// ----- raw-path requests -----

#[test]
fn raw_request_is_parsed() {
    let req = read_headers(
        "POST /files/x HTTP/1.1\r\n",
        &lines(&["Content-Length: 12\r\n", "Connection: Close\r\n\r\n"]),
    );
    assert_eq!(req.method, "POST");
    assert_eq!(req.path, "/files/x");
    assert_eq!(req.protocol, "HTTP/1.1");
    assert_eq!(req.content_length(), Some(12));
    assert!(req.closes_connection());
    assert!(req.body.is_none());

    let empty = read_headers("", &Vec::new());
    assert_eq!(empty.method, "");
    assert_eq!(empty.path, "");
    assert_eq!(empty.protocol, "");
    assert_eq!(empty.content_length(), None);
}

fn raw_text(a: raw_path::Action) -> String {
    match a {
        raw_path::Action::Respond(t) => t,
        _ => panic!("expected a response"),
    }
}

#[test]
fn raw_routes() {
    let req = |line: &str, hs: &[&str]| read_headers(line, &lines(hs));

    assert_eq!(raw_text(req("GET / HTTP/1.1", &[]).route(false)), "HTTP/1.1 200 OK\r\n\r\n");
    assert_eq!(
        raw_text(req("GET /echo/abc HTTP/1.1", &[]).route(false)),
        HttpTemplate::PlainText.format(&"abc".to_string())
    );
    assert_eq!(
        raw_text(req("GET /user-agent HTTP/1.1", &["User-Agent: Foo\r\n"]).route(false)),
        HttpTemplate::PlainText.format(&"foo".to_string())
    );
    assert_eq!(
        raw_text(req("GET /user-agent HTTP/1.1", &[]).route(false)),
        HttpTemplate::PlainText.format(&String::new())
    );
    assert!(matches!(req("GET /files/a HTTP/1.1", &[]).route(true), raw_path::Action::ServeFile(f) if f == "a"));
    assert_eq!(raw_text(req("GET /files/a HTTP/1.1", &[]).route(false)), "HTTP/1.1 404 Not Found\r\n\r\n");
    match req("POST /files/b HTTP/1.1", &[]).route(true) {
        raw_path::Action::StoreFile { name, reply } => {
            assert_eq!(name, "b");
            assert_eq!(reply, "HTTP/1.1 201 Created\r\n\r\n");
        }
        _ => panic!("expected a store"),
    }
    assert_eq!(raw_text(req("PUT /files/b HTTP/1.1", &[]).route(true)), "HTTP/1.1 404 Not Found\r\n\r\n");
    assert_eq!(raw_text(req("GET /nope HTTP/1.1", &[]).route(true)), "HTTP/1.1 404 Not Found\r\n\r\n");
    assert!(!req("GET /echo HTTP/1.1", &[]).can_route());
    assert!(!req("GET /echoes HTTP/1.1", &[]).can_route());
    assert!(req("GET /echo/ HTTP/1.1", &[]).can_route());
}

#[test]
fn raw_file_response() {
    let c = "data".to_string();
    assert_eq!(raw_path::file_response(Some(&c)), HttpTemplate::OctetStream.format(&c));
    assert_eq!(raw_path::file_response(None), "HTTP/1.1 404 Not Found\r\n\r\n");
}

// ----- command line -----

#[test]
fn read_args_finds_the_directory() {
    let args = |a: &[&str]| a.iter().map(|s| s.to_string()).collect::<Vec<String>>();
    assert_eq!(read_args(args(&["server", "--directory", "/tmp"])), Some("/tmp".to_string()));
    assert_eq!(read_args(args(&["server", "--directory"])), None);
    assert_eq!(read_args(args(&["server", "--dir", "/tmp"])), None);
    assert_eq!(read_args(args(&[])), None);
}

#[test]
fn both_servers_read_request_lines_alike() {
    for line in ["GET /a/b HTTP/1.1", "POST / HTTP/1.0 extra", "GET //x/ HTTP/2"] {
        let seg = parse(line, &[]);
        let raw = read_headers(line, &Vec::new());
        assert_eq!(seg.method, raw.method);
        assert_eq!(seg.path.join("/"), raw.path);
        assert_eq!(seg.protocol, raw.protocol);
    }
}

#[test]
fn response_splits_at_its_first_blank_line() {
    for t in 0..3 {
        for content in ["", "x", "ü€", "a\r\n\r\nb", "\r\n\r\n"] {
            let r = match t {
                0 => HttpTemplates::PlainText.format(content),
                1 => HttpTemplates::OctetStream.format(content),
                _ => HttpTemplates::Json.format(content),
            };
            assert!(r.starts_with(b"HTTP/1.1 200 OK\r\n"));
            let at = r.windows(4).position(|w| w == b"\r\n\r\n").unwrap();
            let head = String::from_utf8(r[..at].to_vec()).unwrap();
            let value = head.split("Content-Length:").nth(1).unwrap().trim_start_matches(' ');
            assert_eq!(value.parse::<usize>().unwrap(), content.len());
            assert_eq!(&r[at + 4..], content.as_bytes());
        }
    }
}

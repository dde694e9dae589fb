use http_server_lib::raw_path::read_headers;

#[test]
fn test_parse_http() {
    let req = "GET / HTTP/1.1\r\nHost: localhost:4221\r\n\r\n";
    let parsed = read_headers(req, &Vec::new());
    let method = parsed.method;
    let path = parsed.path;
    let protocol = parsed.protocol;

    assert_eq!(method, "GET");
    assert_eq!(path, "/");
    assert_eq!(protocol, "HTTP/1.1")
}

use http_server::{Headers, HttpVersion, Method, ParseError, Request, RequestBuffer};

#[test]
fn test_parse_start_line() {
    let mut buf = RequestBuffer::from("GET / HTTP/1.1\r\n".bytes());
    let (method, path, version) = Request::parse_start_line(&mut buf);
    assert_eq!(method, Method::Get);
    assert_eq!(path, "/");
    assert_eq!(version, HttpVersion::V1_1);
}

#[test]
fn test_parse_headers() {
    let mut buf = RequestBuffer::from("Host: localhost\r\nContent-Length: 10\r\n\r\n".bytes());
    let headers = Request::parse_headers(&mut buf);
    assert_eq!(headers.get("Host").unwrap(), "localhost");
    assert_eq!(headers.get("Content-Length").unwrap(), "10");
}

#[test]
fn test_parse_body() {
    let mut buf = RequestBuffer::from("Hello, World!".bytes());
    let body = Request::parse_body(&mut buf);
    assert_eq!(body, "Hello, World!".as_bytes());
}

#[test]
fn test_parse() {
    let mut buf = RequestBuffer::from(
        "GET / HTTP/1.1\r\nHost: localhost\r\nContent-Length: 10\r\n\r\nHello, World!".bytes(),
    );
    let req = Request::parse(&mut buf);
    assert_eq!(req.method(), Method::Get);
    assert_eq!(req.path(), "/");
    assert_eq!(req.headers().get("Host").unwrap(), "localhost");
    assert_eq!(req.headers().get("Content-Length").unwrap(), "10");
    assert_eq!(req.body(), "Hello, World!".as_bytes());
    assert_eq!(req.version(), HttpVersion::V1_1);
}

fn parse(text: &str) -> Result<Request, ParseError> {
    Request::try_parse(&mut RequestBuffer::new(text.as_bytes().to_vec()))
}

fn headers_of(text: &str) -> Result<Headers, ParseError> {
    Request::try_parse_headers(&mut RequestBuffer::new(text.as_bytes().to_vec()))
}

#[test]
fn every_method_and_version_reads_back() {
    let methods = [
        ("GET", Method::Get),
        ("POST", Method::Post),
        ("PUT", Method::Put),
        ("DELETE", Method::Delete),
    ];
    let versions = [("HTTP/1.0", HttpVersion::V1_0), ("HTTP/1.1", HttpVersion::V1_1)];
    for (method_name, method) in methods {
        for (version_name, version) in versions {
            for path in ["/", "/a/b?c=d", "", "/caf\u{e9}", "/x\ry"] {
                let text = format!("{} {} {}\r\n", method_name, path, version_name);
                let mut buf = RequestBuffer::from(text.bytes());
                let start = Request::try_parse_start_line(&mut buf).unwrap();
                assert_eq!(start, (method, path.to_string(), version));
                assert_eq!(buf.remaining(), 0);
            }
        }
    }
}

#[test]
fn method_and_version_from_their_names() {
    assert_eq!(Method::from("GET"), Method::Get);
    assert_eq!(Method::from("POST"), Method::Post);
    assert_eq!(Method::from("PUT"), Method::Put);
    assert_eq!(Method::from("DELETE"), Method::Delete);
    assert_eq!(HttpVersion::from("HTTP/1.0"), HttpVersion::V1_0);
    assert_eq!(HttpVersion::from("HTTP/1.1"), HttpVersion::V1_1);
    assert_eq!(Method::from_token(b"get"), None);
    assert_eq!(Method::from_token(b"GET "), None);
    assert_eq!(Method::from_token(b""), None);
    assert_eq!(Method::from_token(b"PATCH"), None);
    assert_eq!(HttpVersion::from_token(b"HTTP/2"), None);
    assert_eq!(HttpVersion::from_token(b"http/1.1"), None);
}

#[test]
fn start_line_needs_exactly_three_tokens() {
    assert_eq!(parse("GET /\r\n\r\n").unwrap_err(), ParseError::BadStartLine);
    assert_eq!(parse("GET\r\n\r\n").unwrap_err(), ParseError::BadStartLine);
    assert_eq!(parse("\r\n\r\n").unwrap_err(), ParseError::BadStartLine);
    assert_eq!(parse("").unwrap_err(), ParseError::BadStartLine);
    assert_eq!(parse("GET / HTTP/1.1 x\r\n\r\n").unwrap_err(), ParseError::BadStartLine);
    assert_eq!(parse("GET  / HTTP/1.1\r\n\r\n").unwrap_err(), ParseError::BadStartLine);
    assert_eq!(parse("GET / HTTP/1.1 \r\n\r\n").unwrap_err(), ParseError::BadStartLine);
}

#[test]
fn start_line_with_an_empty_path() {
    let req = parse("GET  HTTP/1.1\r\n\r\n").unwrap();
    assert_eq!(req.path(), "");
}

#[test]
fn unknown_method_and_version_are_told_apart() {
    assert_eq!(parse("PATCH / HTTP/1.1\r\n\r\n").unwrap_err(), ParseError::UnknownMethod);
    assert_eq!(parse("get / HTTP/1.1\r\n\r\n").unwrap_err(), ParseError::UnknownMethod);
    assert_eq!(parse("GET / HTTP/2.0\r\n\r\n").unwrap_err(), ParseError::UnknownVersion);
    assert_eq!(parse("PATCH / HTTP/2.0\r\n\r\n").unwrap_err(), ParseError::UnknownMethod);
}

#[test]
fn path_that_is_not_text_is_refused() {
    let mut bytes = b"GET /".to_vec();
    bytes.push(0xff);
    bytes.extend_from_slice(b" HTTP/1.1\r\n\r\n");
    let r = Request::try_parse(&mut RequestBuffer::new(bytes));
    assert_eq!(r.unwrap_err(), ParseError::InvalidUtf8);
    let mut bytes = b"GET /".to_vec();
    bytes.push(0xff);
    bytes.extend_from_slice(b" HTTP/3\r\n\r\n");
    let r = Request::try_parse(&mut RequestBuffer::new(bytes));
    assert_eq!(r.unwrap_err(), ParseError::InvalidUtf8);
}

#[test]
fn a_lone_line_feed_ends_no_line() {
    assert_eq!(parse("GET / HTTP/1.1\n\n").unwrap_err(), ParseError::UnknownVersion);
    let req = parse("GET /a\nb HTTP/1.1\r\n\r\n").unwrap();
    assert_eq!(req.path(), "/a\nb");
}

#[test]
fn header_line_without_a_colon_is_refused() {
    assert_eq!(headers_of("Host localhost\r\n\r\n").unwrap_err(), ParseError::MissingColon);
    assert_eq!(headers_of("A: b\r\nnonsense\r\n\r\n").unwrap_err(), ParseError::MissingColon);
    assert_eq!(
        parse("GET / HTTP/1.1\r\nHost\r\n\r\n").unwrap_err(),
        ParseError::MissingColon
    );
}

#[test]
fn header_that_is_not_text_is_refused() {
    let mut bytes = b"Na".to_vec();
    bytes.push(0xc3);
    bytes.extend_from_slice(b"me: v\r\n\r\n");
    let r = Request::try_parse_headers(&mut RequestBuffer::new(bytes));
    assert_eq!(r.unwrap_err(), ParseError::InvalidUtf8);
    let mut bytes = b"Name: v".to_vec();
    bytes.push(0x80);
    bytes.extend_from_slice(b"\r\n\r\n");
    let r = Request::try_parse_headers(&mut RequestBuffer::new(bytes));
    assert_eq!(r.unwrap_err(), ParseError::InvalidUtf8);
}

#[test]
fn header_value_keeps_what_follows_the_first_colon() {
    let headers = headers_of("Host: localhost:8080\r\nX: a:b:c\r\n\r\n").unwrap();
    assert_eq!(headers.get("Host").unwrap(), "localhost:8080");
    assert_eq!(headers.get("X").unwrap(), "a:b:c");
    assert_eq!(headers.len(), 2);
}

#[test]
fn header_names_and_values_are_trimmed() {
    let headers = headers_of("  Host \t:\t localhost  \r\nEmpty:\r\n:v\r\n\r\n").unwrap();
    assert_eq!(headers.get("Host").unwrap(), "localhost");
    assert_eq!(headers.get("Empty").unwrap(), "");
    assert_eq!(headers.get("").unwrap(), "v");
    assert_eq!(headers.get("host"), None);
    assert_eq!(headers.get(" Host"), None);
}

#[test]
fn short_header_lines_are_header_lines() {
    let headers = headers_of("a:\r\nb:1\r\n\r\n").unwrap();
    assert_eq!(headers.get("a").unwrap(), "");
    assert_eq!(headers.get("b").unwrap(), "1");
    assert_eq!(headers_of("ab\r\n\r\n").unwrap_err(), ParseError::MissingColon);
}

#[test]
fn later_header_replaces_earlier_one() {
    let headers = headers_of("A: 1\r\nB: 2\r\nA: 3\r\n\r\n").unwrap();
    assert_eq!(headers.get("A").unwrap(), "3");
    assert_eq!(headers.get("B").unwrap(), "2");
    assert_eq!(headers.len(), 2);
    assert_eq!(headers.name_at(0), "A");
    assert_eq!(headers.value_at(0), "3");
    assert_eq!(headers.name_at(1), "B");
}

#[test]
fn header_names_are_case_sensitive() {
    let headers = headers_of("host: a\r\nHost: b\r\n\r\n").unwrap();
    assert_eq!(headers.get("host").unwrap(), "a");
    assert_eq!(headers.get("Host").unwrap(), "b");
    assert_eq!(headers.get("HOST"), None);
    assert!(headers.contains_key("host"));
    assert!(!headers.contains_key("HOST"));
}

#[test]
fn empty_line_ends_headers_and_leaves_the_body() {
    let mut buf = RequestBuffer::from("Host: localhost\r\nContent-Length: 10\r\n\r\nbody\r\nmore".bytes());
    let headers = Request::parse_headers(&mut buf);
    assert_eq!(headers.len(), 2);
    assert_eq!(buf.remaining(), 10);
    let body = Request::parse_body(&mut buf);
    assert_eq!(body, b"body\r\nmore");
    assert_eq!(buf.remaining(), 0);
}

#[test]
fn headers_may_end_with_the_stream() {
    let headers = headers_of("A: 1\r\nB: 2").unwrap();
    assert_eq!(headers.get("A").unwrap(), "1");
    assert_eq!(headers.get("B").unwrap(), "2");
    let headers = headers_of("").unwrap();
    assert_eq!(headers.len(), 0);
    let req = parse("GET / HTTP/1.1").unwrap();
    assert_eq!(req.headers().len(), 0);
    assert_eq!(req.body(), b"");
}

#[test]
fn failed_header_line_is_consumed() {
    let mut buf = RequestBuffer::new(b"A: 1\r\nbad\r\nC: 3\r\n\r\nrest".to_vec());
    assert_eq!(Request::try_parse_headers(&mut buf).unwrap_err(), ParseError::MissingColon);
    assert_eq!(buf.remaining(), 12);
}

#[test]
fn body_stops_at_the_first_zero_byte() {
    let mut buf = RequestBuffer::new(b"ab\0cd\0".to_vec());
    assert_eq!(Request::parse_body(&mut buf), b"ab");
    assert_eq!(buf.remaining(), 3);
    assert_eq!(Request::parse_body(&mut buf), b"cd");
    assert_eq!(buf.remaining(), 0);
    assert_eq!(Request::parse_body(&mut buf), b"");
    let req = parse("POST /x HTTP/1.0\r\n\r\nabc\0def").unwrap();
    assert_eq!(req.body(), b"abc");
    assert_eq!(req.method(), Method::Post);
    assert_eq!(req.version(), HttpVersion::V1_0);
}

#[test]
fn request_read_from_a_zero_padded_buffer() {
    let mut bytes = [0u8; 2048];
    let text = b"GET /echo/hi HTTP/1.1\r\nUser-Agent: t\r\n\r\n";
    bytes[..text.len()].copy_from_slice(text);
    let req = Request::parse(&mut RequestBuffer::from(bytes.into_iter()));
    assert_eq!(req.path(), "/echo/hi");
    assert_eq!(req.headers().get("User-Agent").unwrap(), "t");
    assert_eq!(req.body(), b"");
}

#[test]
fn read_next_line_appends_and_counts() {
    let mut buf = RequestBuffer::new(b"ab\r\n\r\ncd\r".to_vec());
    let mut line: Vec<u8> = vec![b'>'];
    assert_eq!(buf.read_next_line(&mut line), 3);
    assert_eq!(line, b">ab");
    assert_eq!(buf.read_next_line(&mut line), 1);
    assert_eq!(line, b">ab");
    assert_eq!(buf.read_next_line(&mut line), 3);
    assert_eq!(line, b">abcd\r");
    assert_eq!(buf.read_next_line(&mut line), 0);
    assert_eq!(line, b">abcd\r");
}

#[test]
fn read_next_line_takes_the_first_pair_only() {
    let mut buf = RequestBuffer::new(b"\n\r\r\nx\n\r\n".to_vec());
    let mut line: Vec<u8> = Vec::new();
    assert_eq!(buf.read_next_line(&mut line), 3);
    assert_eq!(line, b"\n\r");
    line.clear();
    assert_eq!(buf.read_next_line(&mut line), 3);
    assert_eq!(line, b"x\n");
    assert_eq!(buf.remaining(), 0);
}

#[test]
fn read_until_leaves_the_stop_byte() {
    let mut buf = RequestBuffer::new(b"key=value".to_vec());
    let mut out: Vec<u8> = Vec::new();
    assert_eq!(buf.read_until(b'=', &mut out), 3);
    assert_eq!(out, b"key");
    assert_eq!(buf.remaining(), 6);
    assert_eq!(buf.read_until(b'=', &mut out), 0);
    assert_eq!(out, b"key");
    assert_eq!(buf.read_until(b'#', &mut out), 6);
    assert_eq!(out, b"key=value");
    assert_eq!(buf.remaining(), 0);
}

#[test]
fn read_to_end_appends() {
    let mut buf = RequestBuffer::new(b"xyz".to_vec());
    let mut out: Vec<u8> = b"ab".to_vec();
    buf.read_to_end(&mut out);
    assert_eq!(out, b"abxyz");
}

#[test]
fn multibyte_text_is_decoded() {
    let req = parse("GET /caf\u{e9}/\u{65e5}\u{672c} HTTP/1.1\r\nN\u{e4}me: v\u{e4}lue \u{1f600}\r\n\r\n").unwrap();
    assert_eq!(req.path(), "/caf\u{e9}/\u{65e5}\u{672c}");
    assert_eq!(req.headers().get("N\u{e4}me").unwrap(), "v\u{e4}lue \u{1f600}");
}

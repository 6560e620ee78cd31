use http_server::model::{HttpMethod, HttpRequest, ParseError};
use http_server::num::{dec_parse, dec_string};
use http_server::parse::{is_blank_line, required_body_len, strip_line_ending};

fn lines(raw: &[&[u8]]) -> Vec<Vec<u8>> {
    raw.iter().map(|l| strip_line_ending(l.to_vec())).collect()
}

#[test]
fn strip_line_ending_variants() {
    assert_eq!(strip_line_ending(b"abc\r\n".to_vec()), b"abc".to_vec());
    assert_eq!(strip_line_ending(b"abc\n".to_vec()), b"abc".to_vec());
    assert_eq!(strip_line_ending(b"abc".to_vec()), b"abc".to_vec());
    assert_eq!(strip_line_ending(b"\r\n".to_vec()), Vec::<u8>::new());
    assert_eq!(strip_line_ending(b"a\rb\n".to_vec()), b"a\rb".to_vec());
}

#[test]
fn blank_line_detection() {
    assert!(is_blank_line(&b"\r\n".to_vec()));
    assert!(is_blank_line(&b"\n".to_vec()));
    assert!(is_blank_line(&b"".to_vec()));
    assert!(!is_blank_line(&b"x\r\n".to_vec()));
}

#[test]
fn head_lines_parse_get() {
    let head = HttpRequest::from_head_lines(&lines(&[
        b"GET /echo/abc HTTP/1.1\r\n",
        b"Host: localhost:4221\r\n",
        b"User-Agent: curl/7.64.1\r\n",
    ]))
    .unwrap();
    assert_eq!(head.http_method, HttpMethod::Get);
    assert_eq!(head.path, String::from("/echo/abc"));
    assert_eq!(
        head.headers.get(&String::from("Host")),
        Some(String::from("localhost:4221"))
    );
    assert_eq!(
        head.headers.get(&String::from("User-Agent")),
        Some(String::from("curl/7.64.1"))
    );
}

#[test]
fn head_lines_reject_unknown_method() {
    let r = HttpRequest::from_head_lines(&lines(&[b"BREW / HTTP/1.1\r\n"]));
    assert_eq!(r.err(), Some(ParseError::MalformedRequestLine));
}

#[test]
fn head_lines_reject_empty() {
    let r = HttpRequest::from_head_lines(&Vec::new());
    assert_eq!(r.err(), Some(ParseError::MalformedRequestLine));
}

#[test]
fn head_lines_reject_two_tokens() {
    let r = HttpRequest::from_head_lines(&lines(&[b"GET /\r\n"]));
    assert_eq!(r.err(), Some(ParseError::MalformedRequestLine));
}

#[test]
fn head_lines_reject_path_without_slash() {
    let r = HttpRequest::from_head_lines(&lines(&[b"GET echo HTTP/1.1\r\n"]));
    assert_eq!(r.err(), Some(ParseError::MalformedRequestLine));
}

#[test]
fn head_lines_reject_header_without_separator() {
    let r = HttpRequest::from_head_lines(&lines(&[b"GET / HTTP/1.1\r\n", b"Host localhost\r\n"]));
    assert_eq!(r.err(), Some(ParseError::MalformedHeader));
}

#[test]
fn parse_headers_splits_at_first_separator() {
    let headers = HttpRequest::parse_headers(&vec![
        String::from("Host: localhost"),
        String::from("X-Note: a: b: c"),
    ])
    .unwrap();
    assert_eq!(headers.get(&String::from("Host")), Some(String::from("localhost")));
    assert_eq!(headers.get(&String::from("X-Note")), Some(String::from("a: b: c")));
}

#[test]
fn parse_headers_accepts_text_beyond_ascii() {
    let headers = HttpRequest::parse_headers(&vec![String::from("é: x"), String::from("X-Gruß: Käse")])
        .unwrap();
    assert_eq!(headers.get(&String::from("é")), Some(String::from("x")));
    assert_eq!(headers.get(&String::from("X-Gruß")), Some(String::from("Käse")));
}

#[test]
fn head_lines_accept_text_beyond_ascii() {
    let head = HttpRequest::from_head_lines(&lines(&[
        "GET /café HTTP/1.1\r\n".as_bytes(),
        "X-Gruß: Käse\r\n".as_bytes(),
    ]))
    .unwrap();
    assert_eq!(head.path, String::from("/café"));
    assert_eq!(head.headers.get(&String::from("X-Gruß")), Some(String::from("Käse")));
}

#[test]
fn head_lines_reject_bytes_that_are_not_text() {
    let r = HttpRequest::from_head_lines(&vec![b"GET / HTTP/1.1".to_vec(), vec![0xFF, b'a', b':', b' ', b'x']]);
    assert_eq!(r.err(), Some(ParseError::MalformedHeader));
    let r = HttpRequest::from_head_lines(&vec![vec![0xFF, 0xFE]]);
    assert_eq!(r.err(), Some(ParseError::MalformedRequestLine));
}

#[test]
fn parse_headers_rejects_missing_separator() {
    let r = HttpRequest::parse_headers(&vec![String::from("nonsense")]);
    assert_eq!(r.err(), Some(ParseError::MalformedHeader));
}

#[test]
fn body_length_follows_content_length() {
    let head = HttpRequest::from_head_lines(&lines(&[
        b"POST /files/a.txt HTTP/1.1\r\n",
        b"Content-Type: application/octet-stream\r\n",
        b"Content-Length: 5\r\n",
    ]))
    .unwrap();
    assert_eq!(required_body_len(&head.headers), Ok(5));
    let request = HttpRequest::from_parts(head, b"12345".to_vec()).unwrap();
    assert_eq!(request.body, b"12345".to_vec());
    assert_eq!(request.http_method, HttpMethod::Post);
}

#[test]
fn body_length_zero_without_header() {
    let head = HttpRequest::from_head_lines(&lines(&[b"GET / HTTP/1.1\r\n"])).unwrap();
    assert_eq!(required_body_len(&head.headers), Ok(0));
    assert!(HttpRequest::from_parts(head, Vec::new()).is_some());
}

#[test]
fn body_length_mismatch_refused() {
    let head = HttpRequest::from_head_lines(&lines(&[
        b"POST /files/a HTTP/1.1\r\n",
        b"Content-Type: application/octet-stream\r\n",
        b"Content-Length: 4\r\n",
    ]))
    .unwrap();
    assert!(HttpRequest::from_parts(head, b"12345".to_vec()).is_none());
}

#[test]
fn content_length_must_be_decimal() {
    let head = HttpRequest::from_head_lines(&lines(&[
        b"POST /files/a HTTP/1.1\r\n",
        b"Content-Length: five\r\n",
    ]))
    .unwrap();
    assert_eq!(required_body_len(&head.headers), Err(ParseError::InvalidContentLength));
}

#[test]
fn decimal_rendering_exact() {
    assert_eq!(dec_string(0), "0");
    assert_eq!(dec_string(3), "3");
    assert_eq!(dec_string(4221), "4221");
    assert_eq!(dec_string(1000000), "1000000");
}

#[test]
fn decimal_parsing_exact() {
    assert_eq!(dec_parse("0"), Some(0));
    assert_eq!(dec_parse("42"), Some(42));
    assert_eq!(dec_parse("007"), Some(7));
    assert_eq!(dec_parse(""), None);
    assert_eq!(dec_parse("12a"), None);
    assert_eq!(dec_parse("-1"), None);
    assert_eq!(dec_parse("99999999999999999999999999"), None);
}

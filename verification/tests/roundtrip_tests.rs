use http_server::decode::parse_response;
use http_server::endpoints::{handle, HandlerStep};
use http_server::http_response::{ok, HttpResponseContent};
use http_server::model::{HttpRequest, HttpResponseStatus};
use http_server::parse::strip_line_ending;
use http_server::settings::ServerSettings;

fn request_from_wire(raw: &[u8]) -> HttpRequest {
    let mut lines: Vec<Vec<u8>> = Vec::new();
    let mut current: Vec<u8> = Vec::new();
    let mut body_from = raw.len();
    for (i, b) in raw.iter().enumerate() {
        current.push(*b);
        if *b == b'\n' {
            let stripped = strip_line_ending(current.clone());
            current.clear();
            if stripped.is_empty() {
                body_from = i + 1;
                break;
            }
            lines.push(stripped);
        }
    }
    let head = HttpRequest::from_head_lines(&lines).unwrap();
    let expected = http_server::parse::required_body_len(&head.headers).unwrap();
    let body = raw[body_from..body_from + expected].to_vec();
    HttpRequest::from_parts(head, body).unwrap()
}

#[test]
fn response_round_trip_recovers_everything() {
    let response = ok(Some(HttpResponseContent {
        body: b"payload".to_vec(),
        media_type: "text/plain",
    }));
    let decoded = parse_response(&response.serialize()).unwrap();
    assert_eq!(decoded.status, HttpResponseStatus::Okay);
    assert_eq!(decoded.body, b"payload".to_vec());
    assert_eq!(decoded.headers.len(), 2);
    assert_eq!(
        decoded.headers.get(&String::from("Content-Type")),
        Some(String::from("text/plain"))
    );
    assert_eq!(
        decoded.headers.get(&String::from("Content-Length")),
        Some(String::from("7"))
    );
}

#[test]
fn response_round_trip_binary_body() {
    let body: Vec<u8> = vec![0, 13, 10, 13, 10, 255, 1];
    let response = ok(Some(HttpResponseContent {
        body: body.clone(),
        media_type: "application/octet-stream",
    }));
    let decoded = parse_response(&response.serialize()).unwrap();
    assert_eq!(decoded.body, body);
    assert_eq!(decoded.status, HttpResponseStatus::Okay);
}

#[test]
fn response_round_trip_empty() {
    let response = ok(None);
    let decoded = parse_response(&response.serialize()).unwrap();
    assert_eq!(decoded.status, HttpResponseStatus::Okay);
    assert_eq!(decoded.headers.len(), 0);
    assert_eq!(decoded.body, Vec::<u8>::new());
}

#[test]
fn decoder_rejects_torn_stream() {
    assert!(parse_response(&b"HTTP/1.1 200 OK\r\nContent-Length: 3".to_vec()).is_none());
}

#[test]
fn decoder_rejects_unknown_status_line() {
    assert!(parse_response(&b"HTTP/1.1 500 Oops\r\n\r\n".to_vec()).is_none());
}

#[test]
fn decoder_rejects_repeated_header_name() {
    assert!(parse_response(&b"HTTP/1.1 200 OK\r\nA: 1\r\nA: 2\r\n\r\n".to_vec()).is_none());
}

#[test]
fn decoder_reads_handwritten_response() {
    let decoded =
        parse_response(&b"HTTP/1.1 201 Created\r\nX-Note: a: b\r\n\r\nrest".to_vec()).unwrap();
    assert_eq!(decoded.status, HttpResponseStatus::Created);
    assert_eq!(decoded.headers.get(&String::from("X-Note")), Some(String::from("a: b")));
    assert_eq!(decoded.body, b"rest".to_vec());
}

#[test]
fn decoder_reads_headers_beyond_ascii() {
    let mut raw = b"HTTP/1.1 200 OK\r\n".to_vec();
    raw.extend_from_slice("X-Gruß: Käse\r\n".as_bytes());
    raw.extend_from_slice(b"\r\nbody");
    let decoded = parse_response(&raw).unwrap();
    assert_eq!(decoded.headers.get(&String::from("X-Gruß")), Some(String::from("Käse")));
    assert_eq!(decoded.body, b"body".to_vec());
}

#[test]
fn echo_request_to_exact_wire_bytes() {
    let request = request_from_wire(b"GET /echo/abc HTTP/1.1\r\nHost: x\r\n\r\n");
    let settings = ServerSettings::create_default();
    let response = match handle(&request, &settings) {
        Ok(HandlerStep::Done(response)) => response,
        _ => panic!("echo path must answer directly"),
    };
    assert_eq!(
        response.serialize(),
        b"HTTP/1.1 200 OK\r\nContent-Type: text/plain\r\nContent-Length: 3\r\n\r\nabc".to_vec()
    );
}

#[test]
fn unknown_path_to_exact_wire_bytes() {
    let request = request_from_wire(b"GET /nope HTTP/1.1\r\n\r\n");
    let settings = ServerSettings::create_default();
    let response = match handle(&request, &settings) {
        Ok(HandlerStep::Done(response)) => response,
        _ => panic!("unknown path must answer directly"),
    };
    assert_eq!(response.serialize(), b"HTTP/1.1 404 Not Found\r\n\r\n".to_vec());
}

#[test]
fn posted_body_travels_through_request_parse() {
    let request = request_from_wire(
        b"POST /files/note HTTP/1.1\r\nContent-Type: application/octet-stream\r\nContent-Length: 5\r\n\r\nhello",
    );
    assert_eq!(request.body, b"hello".to_vec());
    let settings = ServerSettings::create_default();
    match handle(&request, &settings) {
        Ok(HandlerStep::WriteFile(path, body)) => {
            assert_eq!(path, "note");
            assert_eq!(body, b"hello".to_vec());
        }
        _ => panic!("file upload must ask for a write"),
    }
}

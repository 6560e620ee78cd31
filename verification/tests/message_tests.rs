use http_server::headers::Headers;
use http_server::http_response::{created, get_response_status_line, not_found, ok, HttpResponseContent};
use http_server::model::{HttpMethod, HttpResponse, HttpResponseStatus};

#[test]
fn method_from_str_get() {
    assert_eq!(HttpMethod::from_str("GET"), Ok(HttpMethod::Get));
}

#[test]
fn method_from_str_post() {
    assert_eq!(HttpMethod::from_str("POST"), Ok(HttpMethod::Post));
}

#[test]
fn method_from_str_unknown() {
    assert_eq!(
        HttpMethod::from_str("BREW"),
        Err(String::from("Unknown method BREW"))
    );
}

#[test]
fn status_lines_are_fixed() {
    assert_eq!(
        get_response_status_line(&HttpResponseStatus::Okay),
        "HTTP/1.1 200 OK"
    );
    assert_eq!(
        get_response_status_line(&HttpResponseStatus::Created),
        "HTTP/1.1 201 Created"
    );
    assert_eq!(
        get_response_status_line(&HttpResponseStatus::NotFound),
        "HTTP/1.1 404 Not Found"
    );
}

#[test]
fn serialize_no_headers() {
    let response = not_found();
    assert_eq!(response.serialize(), b"HTTP/1.1 404 Not Found\r\n\r\n".to_vec());
}

#[test]
fn serialize_with_content() {
    let response = ok(Some(HttpResponseContent {
        body: b"hello".to_vec(),
        media_type: "text/plain",
    }));
    assert_eq!(
        response.serialize(),
        b"HTTP/1.1 200 OK\r\nContent-Type: text/plain\r\nContent-Length: 5\r\n\r\nhello".to_vec()
    );
}

#[test]
fn serialize_created_empty() {
    let response = created();
    assert_eq!(response.serialize(), b"HTTP/1.1 201 Created\r\n\r\n".to_vec());
}

#[test]
fn serialize_appends_binary_body_verbatim() {
    let body: Vec<u8> = vec![0, 255, 13, 10, 13, 10, 7];
    let response = ok(Some(HttpResponseContent {
        body: body.clone(),
        media_type: "application/octet-stream",
    }));
    let bytes = response.serialize();
    assert_eq!(&bytes[bytes.len() - body.len()..], &body[..]);
}

#[test]
fn serialize_status_line_follows_status() {
    let response = HttpResponse {
        status: HttpResponseStatus::Okay,
        status_line: String::from("HTTP/1.1 404 Not Found"),
        headers: Headers::new(),
        body: Vec::new(),
    };
    assert_eq!(response.serialize(), b"HTTP/1.1 200 OK\r\n\r\n".to_vec());
}

#[test]
fn headers_insert_and_get() {
    let mut headers = Headers::new();
    headers.insert(String::from("Content-Type"), String::from("text/plain"));
    headers.insert(String::from("Content-Length"), String::from("3"));
    assert_eq!(headers.len(), 2);
    assert_eq!(
        headers.get(&String::from("Content-Type")),
        Some(String::from("text/plain"))
    );
    assert_eq!(headers.get(&String::from("Content-Length")), Some(String::from("3")));
    assert_eq!(headers.get(&String::from("Host")), None);
    assert!(headers.contains_key(&String::from("Content-Type")));
    assert!(!headers.contains_key(&String::from("Host")));
}

#[test]
fn headers_last_occurrence_wins_in_place() {
    let mut headers = Headers::new();
    headers.insert(String::from("Host"), String::from("a"));
    headers.insert(String::from("User-Agent"), String::from("b"));
    headers.insert(String::from("Host"), String::from("c"));
    assert_eq!(headers.len(), 2);
    assert_eq!(headers.get(&String::from("Host")), Some(String::from("c")));
    let first = headers.entry_at(0);
    assert_eq!(first.0, String::from("Host"));
    assert_eq!(first.1, String::from("c"));
}

#[test]
fn response_wf_fields() {
    let response = HttpResponse {
        status: HttpResponseStatus::Okay,
        status_line: get_response_status_line(&HttpResponseStatus::Okay),
        headers: Headers::new(),
        body: Vec::new(),
    };
    assert_eq!(response.serialize(), b"HTTP/1.1 200 OK\r\n\r\n".to_vec());
}

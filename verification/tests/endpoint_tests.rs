use http_server::endpoints::{
    echo_get, files_get_response, files_post_response, handle, index_get, join_path, not_found,
    user_agent_get, HandlerError, HandlerStep,
};
use http_server::headers::Headers;
use http_server::model::{HttpMethod, HttpRequest, HttpResponseStatus};
use http_server::settings::ServerSettings;

fn get_request(path: &str) -> HttpRequest {
    HttpRequest {
        http_method: HttpMethod::Get,
        path: String::from(path),
        headers: Headers::new(),
        body: Vec::new(),
    }
}

#[test]
fn echo_returns_text_after_prefix() {
    let response = echo_get(&get_request("/echo/abc"));
    assert_eq!(response.status, HttpResponseStatus::Okay);
    assert_eq!(response.body, b"abc".to_vec());
    assert_eq!(
        response.headers.get(&String::from("Content-Type")),
        Some(String::from("text/plain"))
    );
    assert_eq!(
        response.headers.get(&String::from("Content-Length")),
        Some(String::from("3"))
    );
}

#[test]
fn echo_empty_text() {
    let response = echo_get(&get_request("/echo/"));
    assert_eq!(response.body, Vec::<u8>::new());
    assert_eq!(
        response.headers.get(&String::from("Content-Length")),
        Some(String::from("0"))
    );
}

#[test]
fn echo_body_is_utf8_bytes_of_text() {
    let response = echo_get(&get_request("/echo/héllo"));
    assert_eq!(response.body, "héllo".as_bytes().to_vec());
    assert_eq!(
        response.headers.get(&String::from("Content-Length")),
        Some(String::from("héllo".len().to_string()))
    );
}

#[test]
fn user_agent_echoes_header() {
    let mut request = get_request("/user-agent");
    request
        .headers
        .insert(String::from("User-Agent"), String::from("foobar/1.2.3"));
    let response = user_agent_get(&request);
    assert_eq!(response.status, HttpResponseStatus::Okay);
    assert_eq!(response.body, b"foobar/1.2.3".to_vec());
    assert_eq!(
        response.headers.get(&String::from("Content-Length")),
        Some(String::from("12"))
    );
}

#[test]
fn user_agent_absent_is_empty_body() {
    let response = user_agent_get(&get_request("/user-agent"));
    assert_eq!(response.status, HttpResponseStatus::Okay);
    assert_eq!(response.body, Vec::<u8>::new());
    assert_eq!(
        response.headers.get(&String::from("Content-Length")),
        Some(String::from("0"))
    );
}

#[test]
fn index_is_bare_success() {
    let response = index_get();
    assert_eq!(response.status, HttpResponseStatus::Okay);
    assert_eq!(response.body, Vec::<u8>::new());
    assert_eq!(response.headers.len(), 0);
}

#[test]
fn missing_route_is_not_found() {
    let response = not_found();
    assert_eq!(response.status, HttpResponseStatus::NotFound);
    assert_eq!(response.body, Vec::<u8>::new());
    assert_eq!(response.headers.len(), 0);
}

#[test]
fn missing_file_is_404_with_empty_body() {
    let response = files_get_response(None);
    assert_eq!(response.status, HttpResponseStatus::NotFound);
    assert_eq!(response.body, Vec::<u8>::new());
    assert_eq!(response.serialize(), b"HTTP/1.1 404 Not Found\r\n\r\n".to_vec());
}

#[test]
fn found_file_is_octet_stream() {
    let response = files_get_response(Some(b"data".to_vec()));
    assert_eq!(response.status, HttpResponseStatus::Okay);
    assert_eq!(response.body, b"data".to_vec());
    assert_eq!(
        response.headers.get(&String::from("Content-Type")),
        Some(String::from("application/octet-stream"))
    );
    assert_eq!(
        response.headers.get(&String::from("Content-Length")),
        Some(String::from("4"))
    );
}

#[test]
fn stored_file_is_created() {
    let response = files_post_response();
    assert_eq!(response.status, HttpResponseStatus::Created);
    assert_eq!(response.serialize(), b"HTTP/1.1 201 Created\r\n\r\n".to_vec());
}

#[test]
fn join_path_inserts_separator() {
    assert_eq!(join_path("/tmp/data", "a.txt"), "/tmp/data/a.txt");
    assert_eq!(join_path("/tmp/data/", "a.txt"), "/tmp/data/a.txt");
    assert_eq!(join_path("", "a.txt"), "a.txt");
}

#[test]
fn handle_dispatches_echo() {
    let settings = ServerSettings::create_default();
    match handle(&get_request("/echo/xyz"), &settings) {
        Ok(HandlerStep::Done(response)) => {
            assert_eq!(response.status, HttpResponseStatus::Okay);
            assert_eq!(response.body, b"xyz".to_vec());
        }
        _ => panic!("echo path must answer directly"),
    }
}

#[test]
fn handle_dispatches_index_and_unknown() {
    let settings = ServerSettings::create_default();
    match handle(&get_request("/"), &settings) {
        Ok(HandlerStep::Done(response)) => assert_eq!(response.status, HttpResponseStatus::Okay),
        _ => panic!("root path must answer directly"),
    }
    match handle(&get_request("/nope"), &settings) {
        Ok(HandlerStep::Done(response)) => {
            assert_eq!(response.status, HttpResponseStatus::NotFound)
        }
        _ => panic!("unknown path must answer directly"),
    }
}

#[test]
fn handle_file_get_names_file_under_root() {
    let mut settings = ServerSettings::create_default();
    settings.root_dir = String::from("/tmp/files");
    match handle(&get_request("/files/a.txt"), &settings) {
        Ok(HandlerStep::ReadFile(path)) => assert_eq!(path, "/tmp/files/a.txt"),
        _ => panic!("file fetch must ask for a read"),
    }
}

#[test]
fn handle_file_post_and_get_touch_one_file() {
    let mut settings = ServerSettings::create_default();
    settings.root_dir = String::from("/tmp/files");

    let mut headers = Headers::new();
    headers.insert(
        String::from("Content-Type"),
        String::from("application/octet-stream"),
    );
    headers.insert(String::from("Content-Length"), String::from("4"));
    let post = HttpRequest {
        http_method: HttpMethod::Post,
        path: String::from("/files/note"),
        headers,
        body: b"data".to_vec(),
    };

    let written = match handle(&post, &settings) {
        Ok(HandlerStep::WriteFile(path, body)) => {
            assert_eq!(body, b"data".to_vec());
            path
        }
        _ => panic!("file upload must ask for a write"),
    };

    let read = match handle(&get_request("/files/note"), &settings) {
        Ok(HandlerStep::ReadFile(path)) => path,
        _ => panic!("file fetch must ask for a read"),
    };
    assert_eq!(written, read);

    let fetched = files_get_response(Some(b"data".to_vec()));
    assert_eq!(fetched.status, HttpResponseStatus::Okay);
    assert_eq!(fetched.body, b"data".to_vec());
}

#[test]
fn post_to_get_only_routes_is_not_found() {
    let settings = ServerSettings::create_default();
    for path in ["/echo/abc", "/user-agent", "/"] {
        let request = HttpRequest {
            http_method: HttpMethod::Post,
            path: String::from(path),
            headers: Headers::new(),
            body: Vec::new(),
        };
        match handle(&request, &settings) {
            Ok(HandlerStep::Done(response)) => {
                assert_eq!(response.status, HttpResponseStatus::NotFound);
                assert_eq!(response.body, Vec::<u8>::new());
            }
            _ => panic!("a method and path pair matching no route must answer not found"),
        }
    }
}

#[test]
fn handle_file_post_without_octet_stream_is_refused() {
    let settings = ServerSettings::create_default();
    let mut headers = Headers::new();
    headers.insert(String::from("Content-Type"), String::from("text/plain"));
    let post = HttpRequest {
        http_method: HttpMethod::Post,
        path: String::from("/files/note"),
        headers,
        body: Vec::new(),
    };
    match handle(&post, &settings) {
        Err(HandlerError::UnsupportedMediaType) => {}
        _ => panic!("an upload without the octet-stream media type must be refused"),
    }
}

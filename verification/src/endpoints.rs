//! The routes this server offers, and the dispatch that picks one for a
//! request. File routes touch the disk, which the caller does: for those the
//! dispatch names the file to read or write, and a second step builds the
//! response from what the disk returned.
use vstd::prelude::*;

use crate::ascii::str_starts_with;
use crate::http_response::content_headers;
use crate::http_response::content_header_set;
use crate::http_response::get_response_status_line;
use crate::http_response::HttpResponseContent;
use crate::model::HttpMethod;
use crate::model::HttpRequest;
use crate::model::HttpResponse;
use crate::model::HttpResponseStatus;
use crate::settings::ServerSettings;
use vstd::string::StrSliceExecFns;
use vstd::string::StringExecFns;
use vstd::utf8::encode_utf8;

verus! {

/// The text begins with the given prefix.
pub open spec fn starts_with(s: Seq<char>, prefix: Seq<char>) -> bool {
    s.len() >= prefix.len() && s.take(prefix.len() as int) == prefix
}

/// A path the echo route serves.
pub open spec fn is_echo_path(p: Seq<char>) -> bool {
    starts_with(p, "/echo/"@)
}

/// A path the file routes serve.
pub open spec fn is_files_path(p: Seq<char>) -> bool {
    starts_with(p, "/files/"@)
}

/// A response with the given status, no headers, and an empty body.
pub open spec fn empty_response_of(st: HttpResponseStatus, r: HttpResponse) -> bool {
    r.wf() && r.status == st && r.body@ == Seq::<u8>::empty() && r.headers.entries_view() == Seq::<
        (Seq<char>, Seq<char>),
    >::empty()
}

/// The echo route's answer for a path: the text after the prefix, served as
/// plain text under the two content headers.
pub open spec fn echo_response_of(path: Seq<char>, r: HttpResponse) -> bool {
    r.wf() && r.status == HttpResponseStatus::Okay && r.body@ == encode_utf8(path.skip(6))
        && r.headers.entries_view() == content_headers("text/plain"@, r.body@.len())
}

/// The user-agent route's answer for a header mapping: the `User-Agent`
/// value, or an empty body when the header is absent.
pub open spec fn user_agent_response_of(m: Map<Seq<char>, Seq<char>>, r: HttpResponse) -> bool {
    r.wf() && r.status == HttpResponseStatus::Okay && r.body@ == (if m.contains_key("User-Agent"@) {
        encode_utf8(m["User-Agent"@])
    } else {
        Seq::<u8>::empty()
    }) && r.headers.entries_view() == content_headers("text/plain"@, r.body@.len())
}

/// The file-get route's answer: the bytes found, as an octet stream, or a
/// not-found notice when there was no file.
pub open spec fn files_response_of(content: Option<Vec<u8>>, r: HttpResponse) -> bool {
    match content {
        Some(b) => r.wf() && r.status == HttpResponseStatus::Okay && r.body@ == b@
            && r.headers.entries_view() == content_headers(
            "application/octet-stream"@,
            b@.len(),
        ),
        None => empty_response_of(HttpResponseStatus::NotFound, r),
    }
}

/// A path under the configured root: the root and the name, joined with a
/// separator unless the root is empty or already ends with one.
pub open spec fn join_path_view(root: Seq<char>, name: Seq<char>) -> Seq<char> {
    if root.len() == 0 {
        name
    } else if root.last() == '/' {
        root + name
    } else {
        root + "/"@ + name
    }
}

/// Joins the configured root with a file name.
pub fn join_path(root: &str, name: &str) -> (r: String)
    ensures
        r@ == join_path_view(root@, name@),
{
    let n = root.unicode_len();
    if n == 0 {
        String::from_str(name)
    } else if root.get_char(n - 1) == '/' {
        String::from_str(root).concat(name)
    } else {
        String::from_str(root).concat("/").concat(name)
    }
}

/// The root route: a bare success.
pub fn index_get() -> (r: HttpResponse)
    ensures
        empty_response_of(HttpResponseStatus::Okay, r),
{
    crate::http_response::ok(None)
}

/// The answer for a path no route serves.
pub fn not_found() -> (r: HttpResponse)
    ensures
        empty_response_of(HttpResponseStatus::NotFound, r),
{
    crate::http_response::not_found()
}

/// The echo route: the text after `/echo/`, back as plain text.
pub fn echo_get(request: &HttpRequest) -> (r: HttpResponse)
    requires
        is_echo_path(request.path@),
    ensures
        echo_response_of(request.path@, r),
{
    proof {
        reveal_strlit("/echo/");
        assert("/echo/"@.len() == 6);
    }
    let path_str = request.path.as_str();
    let len = path_str.unicode_len();
    let text = path_str.substring_char(6, len);
    let body = text.as_bytes_vec();
    proof {
        assert(text@ =~= request.path@.skip(6));
    }
    let headers = content_header_set("text/plain", body.len());
    let status = HttpResponseStatus::Okay;
    let status_line = get_response_status_line(&status);
    HttpResponse { status, status_line, headers, body }
}

/// The user-agent route: the request's `User-Agent` value, back as plain
/// text; an absent header answers with an empty body, not an error.
pub fn user_agent_get(request: &HttpRequest) -> (r: HttpResponse)
    requires
        request.headers.wf(),
    ensures
        user_agent_response_of(request.headers.as_map(), r),
{
    let body = match request.headers.get(&String::from_str("User-Agent")) {
        Some(v) => v.as_str().as_bytes_vec(),
        None => Vec::new(),
    };
    let headers = content_header_set("text/plain", body.len());
    let status = HttpResponseStatus::Okay;
    let status_line = get_response_status_line(&status);
    HttpResponse { status, status_line, headers, body }
}

/// The file-get route's second step: the response for what the disk held.
pub fn files_get_response(content: Option<Vec<u8>>) -> (r: HttpResponse)
    ensures
        files_response_of(content, r),
{
    match content {
        Some(b) => crate::http_response::ok(
            Some(HttpResponseContent { body: b, media_type: "application/octet-stream" }),
        ),
        None => crate::http_response::not_found(),
    }
}

/// The file-post route's second step: the response once the body is stored.
pub fn files_post_response() -> (r: HttpResponse)
    ensures
        empty_response_of(HttpResponseStatus::Created, r),
{
    crate::http_response::created()
}

/// What the dispatch asks of its caller: a finished response, or one file
/// operation whose outcome the second-step builders turn into a response.
pub enum HandlerStep {
    /// The response is ready.
    Done(HttpResponse),
    /// Read this file; `files_get_response` answers for the outcome.
    ReadFile(String),
    /// Write these bytes to this file; `files_post_response` answers once
    /// they are stored.
    WriteFile(String, Vec<u8>),
}

/// Why the dispatch refused a request.
#[derive(Clone, Copy, PartialEq, Eq, Structural, Debug)]
pub enum HandlerError {
    /// A file upload without the expected media type.
    UnsupportedMediaType,
}

/// Whether the headers announce the octet-stream media type.
pub open spec fn octet_stream_content_type(m: Map<Seq<char>, Seq<char>>) -> bool {
    m.contains_key("Content-Type"@) && m["Content-Type"@] == "application/octet-stream"@
}

/// Picks the route for a request: `GET` serves echo and files by prefix
/// and the user-agent and root routes by exact path; `POST` only stores
/// files. Any method and path pair matching no route answers not found. A
/// file upload whose media type is not an octet stream is refused.
pub fn handle(request: &HttpRequest, env: &ServerSettings) -> (r: Result<HandlerStep, HandlerError>)
    requires
        request.headers.wf(),
    ensures
        ({
            let p = request.path@;
            let m = request.headers.as_map();
            let get = request.http_method == HttpMethod::Get;
            &&& is_echo_path(p) && get ==> (r matches Ok(HandlerStep::Done(resp))
                && echo_response_of(p, resp))
            &&& !is_echo_path(p) && is_files_path(p) && get ==> (r matches Ok(
                HandlerStep::ReadFile(f),
            ) && f@ == join_path_view(env.root_dir@, p.skip(7)))
            &&& !is_echo_path(p) && is_files_path(p) && !get && octet_stream_content_type(m)
                ==> (r matches Ok(HandlerStep::WriteFile(f, b)) && f@ == join_path_view(
                env.root_dir@,
                p.skip(7),
            ) && b@ == request.body@)
            &&& !is_echo_path(p) && is_files_path(p) && !get && !octet_stream_content_type(m)
                ==> r == Err::<HandlerStep, HandlerError>(HandlerError::UnsupportedMediaType)
            &&& !is_echo_path(p) && !is_files_path(p) && p == "/user-agent"@ && get ==> (
            r matches Ok(HandlerStep::Done(resp)) && user_agent_response_of(m, resp))
            &&& !is_echo_path(p) && !is_files_path(p) && p != "/user-agent"@ && p == "/"@ && get
                ==> (r matches Ok(HandlerStep::Done(resp)) && empty_response_of(
                HttpResponseStatus::Okay,
                resp,
            ))
            &&& !get && !is_files_path(p) ==> (r matches Ok(HandlerStep::Done(resp))
                && empty_response_of(HttpResponseStatus::NotFound, resp))
            &&& !is_echo_path(p) && !is_files_path(p) && p != "/user-agent"@ && p != "/"@ ==> (
            r matches Ok(HandlerStep::Done(resp)) && empty_response_of(
                HttpResponseStatus::NotFound,
                resp,
            ))
        }),
{
    let is_get = request.http_method == HttpMethod::Get;
    let path_str = request.path.as_str();
    if str_starts_with(path_str, "/echo/") {
        if is_get {
            Ok(HandlerStep::Done(echo_get(request)))
        } else {
            Ok(HandlerStep::Done(not_found()))
        }
    } else if str_starts_with(path_str, "/files/") {
        proof {
            reveal_strlit("/files/");
            assert("/files/"@.len() == 7);
        }
        let len = path_str.unicode_len();
        let name = path_str.substring_char(7, len);
        proof {
            assert(name@ =~= request.path@.skip(7));
        }
        let file_path = join_path(env.root_dir.as_str(), name);
        match request.http_method {
            HttpMethod::Get => Ok(HandlerStep::ReadFile(file_path)),
            HttpMethod::Post => {
                let expected = String::from_str("application/octet-stream");
                match request.headers.get(&String::from_str("Content-Type")) {
                    Some(v) => {
                        if v == expected {
                            let body = vstd::slice::slice_to_vec(request.body.as_slice());
                            Ok(HandlerStep::WriteFile(file_path, body))
                        } else {
                            Err(HandlerError::UnsupportedMediaType)
                        }
                    },
                    None => Err(HandlerError::UnsupportedMediaType),
                }
            },
        }
    } else if request.path == String::from_str("/user-agent") {
        if is_get {
            Ok(HandlerStep::Done(user_agent_get(request)))
        } else {
            Ok(HandlerStep::Done(not_found()))
        }
    } else if request.path == String::from_str("/") {
        if is_get {
            Ok(HandlerStep::Done(index_get()))
        } else {
            Ok(HandlerStep::Done(not_found()))
        }
    } else {
        Ok(HandlerStep::Done(not_found()))
    }
}

/// Storing a body under `/files/{name}` and fetching the same path touch
/// one file: both routes compute the same joined path. And a fetch that
/// finds the stored bytes answers with exactly those bytes and a success
/// status. (That the disk hands back what was written is the caller's
/// ground, not stated here.)
pub proof fn lemma_file_route_idempotence(
    root: Seq<char>,
    post_path: Seq<char>,
    get_path: Seq<char>,
    b: Vec<u8>,
    fetched: HttpResponse,
)
    requires
        post_path == get_path,
        files_response_of(Some(b), fetched),
    ensures
        join_path_view(root, post_path.skip(7)) == join_path_view(root, get_path.skip(7)),
        fetched.status == HttpResponseStatus::Okay,
        fetched.body@ == b@,
{
}


} // verus!

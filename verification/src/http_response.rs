//! Building the responses the routes send: a success with optional content,
//! a created notice, and a not-found notice.
use vstd::prelude::*;

use crate::ascii::ascii_chars;
use crate::headers::Headers;
use crate::model::status_line_view;
use crate::model::HttpResponse;
use crate::model::HttpResponseStatus;
use crate::num::dec_rep;
use crate::num::dec_string;

verus! {

/// Content to serve: the bytes and the media type naming them.
pub struct HttpResponseContent<'a> {
    pub body: Vec<u8>,
    pub media_type: &'a str,
}

/// The fixed status line text for a status.
pub fn get_response_status_line(http_response: &HttpResponseStatus) -> (r: String)
    ensures
        r@ == status_line_view(*http_response),
        ascii_chars(r@),
{
    proof {
        crate::model::lemma_status_lines(*http_response);
    }
    match http_response {
        HttpResponseStatus::Okay => String::from_str("HTTP/1.1 200 OK"),
        HttpResponseStatus::Created => String::from_str("HTTP/1.1 201 Created"),
        HttpResponseStatus::NotFound => String::from_str("HTTP/1.1 404 Not Found"),
    }
}

/// The header pair naming the media type of a body.
pub open spec fn content_type_pair(media_type: Seq<char>) -> (Seq<char>, Seq<char>) {
    ("Content-Type"@, media_type)
}

/// The header pair announcing the length of a body.
pub open spec fn content_length_pair(len: nat) -> (Seq<char>, Seq<char>) {
    ("Content-Length"@, dec_rep(len))
}

/// The two content headers every non-empty body travels with, in order.
pub open spec fn content_headers(media_type: Seq<char>, len: nat) -> Seq<(Seq<char>, Seq<char>)> {
    seq![content_type_pair(media_type), content_length_pair(len)]
}

/// The two header names differ.
pub proof fn lemma_content_header_names()
    ensures
        "Content-Type"@ != "Content-Length"@,
        ascii_chars("Content-Type"@),
        ascii_chars("Content-Length"@),
{
    reveal_strlit("Content-Type");
    reveal_strlit("Content-Length");
    assert("Content-Type"@.len() == 12);
    assert("Content-Length"@.len() == 14);
}

/// A response built with content announces its own length: the
/// `Content-Length` value among the content headers denotes exactly the
/// body length it was built for.
pub proof fn lemma_content_length_consistent(media_type: Seq<char>, len: nat)
    ensures
        content_headers(media_type, len)[1].0 == "Content-Length"@,
        crate::num::all_digits(content_headers(media_type, len)[1].1),
        crate::num::dec_value(content_headers(media_type, len)[1].1) == len,
{
    crate::num::lemma_dec_rep_digits(len);
    crate::num::lemma_dec_value_of_rep(len);
}

/// Builds a header collection holding exactly the two content headers.
pub fn content_header_set(media_type: &str, len: usize) -> (r: Headers)
    ensures
        r.wf(),
        r.entries_view() == content_headers(media_type@, len as nat),
{
    proof {
        lemma_content_header_names();
    }
    let mut headers = Headers::new();
    headers.insert(String::from_str("Content-Type"), String::from_str(media_type));
    headers.insert(String::from_str("Content-Length"), dec_string(len));
    proof {
        assert(headers.entries_view() =~= content_headers(media_type@, len as nat));
    }
    headers
}

/// A success response: with content, its bytes under the two content
/// headers; without, an empty body and no headers.
pub fn ok(content: Option<HttpResponseContent>) -> (r: HttpResponse)
    ensures
        r.wf(),
        r.status == HttpResponseStatus::Okay,
        match content {
            Some(c) => r.body@ == c.body@ && r.headers.entries_view() == content_headers(
                c.media_type@,
                c.body@.len(),
            ),
            None => r.body@ == Seq::<u8>::empty() && r.headers.entries_view() == Seq::<
                (Seq<char>, Seq<char>),
            >::empty(),
        },
{
    let status = HttpResponseStatus::Okay;
    let status_line = get_response_status_line(&status);

    let (headers, body) = match content {
        Some(c) => {
            let headers = content_header_set(c.media_type, c.body.len());
            (headers, c.body)
        },
        None => (Headers::new(), Vec::new()),
    };

    HttpResponse { status, status_line, headers, body }
}

/// A created notice: empty body, no headers.
pub fn created() -> (r: HttpResponse)
    ensures
        r.wf(),
        r.status == HttpResponseStatus::Created,
        r.body@ == Seq::<u8>::empty(),
        r.headers.entries_view() == Seq::<(Seq<char>, Seq<char>)>::empty(),
{
    let status = HttpResponseStatus::Created;
    let status_line = get_response_status_line(&status);

    HttpResponse { status, status_line, headers: Headers::new(), body: Vec::new() }
}

/// A not-found notice: empty body, no headers.
pub fn not_found() -> (r: HttpResponse)
    ensures
        r.wf(),
        r.status == HttpResponseStatus::NotFound,
        r.body@ == Seq::<u8>::empty(),
        r.headers.entries_view() == Seq::<(Seq<char>, Seq<char>)>::empty(),
{
    let status = HttpResponseStatus::NotFound;
    let status_line = get_response_status_line(&status);

    HttpResponse { status, status_line, headers: Headers::new(), body: Vec::new() }
}

} // verus!

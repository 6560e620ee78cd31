//! The HTTP message model: requests, responses, and the exact bytes a
//! response puts on the wire.
use vstd::prelude::*;

use crate::ascii::ascii_chars;
use crate::headers::Headers;
use crate::num::all_digits;
use crate::num::dec_value;
use vstd::utf8::encode_utf8;

verus! {

/// A request method this server understands.
#[derive(Clone, Copy, PartialEq, Eq, Structural, Debug)]
pub enum HttpMethod {
    Get,
    Post,
}

impl HttpMethod {
    /// Reads a method token; anything but the two supported verbs is refused
    /// with a message naming the token.
    pub fn from_str(input: &str) -> (r: Result<HttpMethod, String>)
        ensures
            match r {
                Ok(m) => (input@ == "GET"@ && m == HttpMethod::Get) || (input@ == "POST"@ && m
                    == HttpMethod::Post),
                Err(e) => input@ != "GET"@ && input@ != "POST"@ && e@ == "Unknown method "@
                    + input@,
            },
    {
        let s = String::from_str(input);
        if s == String::from_str("GET") {
            Ok(HttpMethod::Get)
        } else if s == String::from_str("POST") {
            Ok(HttpMethod::Post)
        } else {
            Err(String::from_str("Unknown method ").concat(input))
        }
    }
}

/// Why a request could not be read from its header block.
#[derive(Clone, Copy, PartialEq, Eq, Structural, Debug)]
pub enum ParseError {
    /// The first line did not hold a supported method, a path starting with
    /// `/`, and a version, separated by whitespace.
    MalformedRequestLine,
    /// A header line did not hold the `": "` separator, or was not ASCII.
    MalformedHeader,
    /// The `Content-Length` value was not a plain decimal number that fits
    /// the machine.
    InvalidContentLength,
}

/// A parsed request.
pub struct HttpRequest {
    pub http_method: HttpMethod,
    pub path: String,
    pub headers: Headers,
    pub body: Vec<u8>,
}

impl HttpRequest {
    /// The body is as long as the `Content-Length` header says, and empty
    /// when that header is absent.
    pub open spec fn body_matches_content_length(&self) -> bool {
        let m = self.headers.as_map();
        if m.contains_key("Content-Length"@) {
            let v = m["Content-Length"@];
            v.len() > 0 && all_digits(v) && dec_value(v) == self.body@.len()
        } else {
            self.body@.len() == 0
        }
    }

    /// A well-formed request: unique header names, a path that starts with
    /// `/`, and a body sized by `Content-Length`.
    pub open spec fn wf(&self) -> bool {
        &&& self.headers.wf()
        &&& self.path@.len() > 0
        &&& self.path@[0] == '/'
        &&& self.body_matches_content_length()
    }
}

/// A response status this server sends.
#[derive(Clone, Copy, PartialEq, Eq, Structural, Debug)]
pub enum HttpResponseStatus {
    Okay,
    Created,
    NotFound,
}

/// The fixed status line sent for a status.
pub open spec fn status_line_view(s: HttpResponseStatus) -> Seq<char> {
    match s {
        HttpResponseStatus::Okay => "HTTP/1.1 200 OK"@,
        HttpResponseStatus::Created => "HTTP/1.1 201 Created"@,
        HttpResponseStatus::NotFound => "HTTP/1.1 404 Not Found"@,
    }
}

/// The three status lines are ASCII, free of line breaks, non-empty, and
/// pairwise distinct.
pub proof fn lemma_status_lines(s: HttpResponseStatus)
    ensures
        ascii_chars(status_line_view(s)),
        status_line_view(s).len() > 0,
        forall|i: int|
            0 <= i < status_line_view(s).len() ==> #[trigger] status_line_view(s)[i] != '\r'
                && status_line_view(s)[i] != '\n',
        forall|t: HttpResponseStatus|
            status_line_view(s) == #[trigger] status_line_view(t) ==> s == t,
{
    reveal_strlit("HTTP/1.1 200 OK");
    reveal_strlit("HTTP/1.1 201 Created");
    reveal_strlit("HTTP/1.1 404 Not Found");
    assert(status_line_view(HttpResponseStatus::Okay).len() == 15);
    assert(status_line_view(HttpResponseStatus::Created).len() == 20);
    assert(status_line_view(HttpResponseStatus::NotFound).len() == 22);
}

/// A response about to be serialized.
pub struct HttpResponse {
    pub status: HttpResponseStatus,
    pub status_line: String,
    pub headers: Headers,
    pub body: Vec<u8>,
}

/// The two bytes that end every line on the wire.
pub open spec fn wire_crlf() -> Seq<u8> {
    seq![13u8, 10u8]
}

/// The two bytes separating a header name from its value.
pub open spec fn colon_space() -> Seq<u8> {
    seq![58u8, 32u8]
}

/// The bytes of one header line, without its terminator.
pub open spec fn header_line_wire(name: Seq<char>, value: Seq<char>) -> Seq<u8> {
    encode_utf8(name) + colon_space() + encode_utf8(value)
}

/// The bytes of a run of header lines, each followed by CRLF.
pub open spec fn header_block_wire(s: Seq<(Seq<char>, Seq<char>)>) -> Seq<u8>
    decreases s.len(),
{
    if s.len() == 0 {
        Seq::<u8>::empty()
    } else {
        header_block_wire(s.drop_last()) + header_line_wire(s.last().0, s.last().1) + wire_crlf()
    }
}

/// The exact bytes a response puts on the wire: the fixed status line for
/// its status, each header once, a blank line, then the body verbatim.
pub open spec fn response_wire(r: HttpResponse) -> Seq<u8> {
    encode_utf8(status_line_view(r.status)) + wire_crlf() + header_block_wire(
        r.headers.entries_view(),
    ) + wire_crlf() + r.body@
}

impl HttpResponse {
    /// The status line matches the status, and header names are unique.
    pub open spec fn wf(&self) -> bool {
        &&& self.status_line@ == status_line_view(self.status)
        &&& self.headers.wf()
    }

    /// Writes the response into wire bytes. The status line comes from the
    /// status, whose text is fixed; the stored field does not reach the
    /// wire.
    pub fn serialize(&self) -> (r: Vec<u8>)
        ensures
            r@ == response_wire(*self),
    {
        let mut raw_response: Vec<u8> = Vec::new();

        let status_line = crate::http_response::get_response_status_line(&self.status);
        let mut status_bytes = status_line.as_str().as_bytes_vec();
        raw_response.append(&mut status_bytes);
        raw_response.push(13);
        raw_response.push(10);
        proof {
            assert(raw_response@ =~= encode_utf8(status_line_view(self.status)) + wire_crlf());
        }

        let ghost entries = self.headers.entries_view();
        let n = self.headers.len();
        let mut i: usize = 0;
        while i < n
            invariant
                0 <= i <= n,
                n == entries.len(),
                entries == self.headers.entries_view(),
                raw_response@ == encode_utf8(status_line_view(self.status)) + wire_crlf()
                    + header_block_wire(entries.take(i as int)),
            decreases n - i,
        {
            let (name, value) = self.headers.entry_at(i);
            let mut name_bytes = name.as_str().as_bytes_vec();
            raw_response.append(&mut name_bytes);
            raw_response.push(58);
            raw_response.push(32);
            let mut value_bytes = value.as_str().as_bytes_vec();
            raw_response.append(&mut value_bytes);
            raw_response.push(13);
            raw_response.push(10);
            proof {
                assert(entries.take(i + 1).drop_last() =~= entries.take(i as int));
                assert(entries.take(i + 1).last() == entries[i as int]);
                assert(raw_response@ =~= encode_utf8(status_line_view(self.status)) + wire_crlf()
                    + header_block_wire(entries.take(i + 1)));
            }
            i += 1;
        }
        proof {
            assert(entries.take(i as int) =~= entries);
        }

        raw_response.push(13);
        raw_response.push(10);

        let mut body_bytes = vstd::slice::slice_to_vec(self.body.as_slice());
        raw_response.append(&mut body_bytes);
        proof {
            assert(raw_response@ =~= response_wire(*self));
        }

        raw_response
    }
}

} // verus!

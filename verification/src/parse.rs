//! Reading a request off its header block: the request line, the header
//! lines, and the body length announced by `Content-Length`. Lines come off
//! the connection as bytes and are read as UTF-8 text.
use vstd::prelude::*;

use crate::ascii::utf8_to_string;
use crate::headers::Headers;
use crate::model::HttpMethod;
use crate::model::HttpRequest;
use crate::model::ParseError;
use crate::num::all_digits;
use crate::num::dec_parse;
use crate::num::dec_value;
use crate::scan::find_char_pair;
use crate::scan::first_pair_from;
use crate::scan::tokenize;
use crate::scan::tokens_from;
use vstd::string::StrSliceExecFns;
use vstd::string::StringExecFns;
use vstd::utf8::decode_utf8;
use vstd::utf8::encode_utf8;
use vstd::utf8::valid_utf8;

verus! {

/// A line without its trailing carriage returns and line feeds.
pub open spec fn strip_crlf_end(s: Seq<u8>) -> Seq<u8>
    decreases s.len(),
{
    if s.len() > 0 && (s.last() == 13 || s.last() == 10) {
        strip_crlf_end(s.drop_last())
    } else {
        s
    }
}

/// Removes every trailing carriage return and line feed from a line as it
/// came off the connection.
#[verifier::loop_isolation(false)]
pub fn strip_line_ending(line: Vec<u8>) -> (r: Vec<u8>)
    ensures
        r@ == strip_crlf_end(line@),
{
    let mut line = line;
    let ghost orig = line@;
    loop
        invariant
            strip_crlf_end(orig) == strip_crlf_end(line@),
        decreases line@.len(),
    {
        let n = line.len();
        if n == 0 {
            return line;
        }
        let last = line[n - 1];
        if last == 13 || last == 10 {
            let ghost pre = line@;
            line.truncate(n - 1);
            proof {
                assert(line@ =~= pre.drop_last());
            }
        } else {
            proof {
                assert(line@.last() == last);
                assert(strip_crlf_end(line@) == line@);
            }
            return line;
        }
    }
}

/// Whether a line as read from the connection is blank once its ending is
/// stripped: such a line ends the header block.
pub fn is_blank_line(line: &Vec<u8>) -> (r: bool)
    ensures
        r == (strip_crlf_end(line@).len() == 0),
{
    let mut i = line.len();
    proof {
        assert(line@.take(line@.len() as int) =~= line@);
    }
    while i > 0 && (line[i - 1] == 13 || line[i - 1] == 10)
        invariant
            0 <= i <= line@.len(),
            strip_crlf_end(line@) == strip_crlf_end(line@.take(i as int)),
        decreases i,
    {
        proof {
            assert(line@.take(i as int).drop_last() =~= line@.take(i - 1));
        }
        i -= 1;
    }
    proof {
        if i > 0 {
            assert(strip_crlf_end(line@.take(i as int)) == line@.take(i as int));
        } else {
            assert(line@.take(0) =~= Seq::<u8>::empty());
        }
    }
    i == 0
}

/// The text a byte line holds: its UTF-8 decoding, or nothing when the
/// bytes are not valid UTF-8.
pub open spec fn line_text(l: Seq<u8>) -> Option<Seq<char>> {
    if valid_utf8(l) {
        Some(decode_utf8(l))
    } else {
        None::<Seq<char>>
    }
}

/// How one header line of text splits at the first `": "`: the name before
/// it and the value after it, or nothing when the line holds no separator.
pub open spec fn header_pair_chars(l: Seq<char>) -> Option<(Seq<char>, Seq<char>)> {
    match first_pair_from(l, 0, ':', ' ') {
        None => None::<(Seq<char>, Seq<char>)>,
        Some(j) => Some((l.take(j), l.skip(j + 2))),
    }
}

/// How one header line of bytes splits: as its text does, and not at all
/// when the bytes are not text.
pub open spec fn header_pair_of_bytes(l: Seq<u8>) -> Option<(Seq<char>, Seq<char>)> {
    match line_text(l) {
        None => None::<(Seq<char>, Seq<char>)>,
        Some(t) => header_pair_chars(t),
    }
}

/// Splits one header line of text at the first `": "`.
pub fn split_header_text(line: &str) -> (r: Result<(String, String), ParseError>)
    ensures
        match r {
            Ok(p) => header_pair_chars(line@) == Some((p.0@, p.1@)),
            Err(e) => header_pair_chars(line@) is None && e == ParseError::MalformedHeader,
        },
{
    match find_char_pair(line, ':', ' ') {
        None => Err(ParseError::MalformedHeader),
        Some(j) => {
            let n = line.unicode_len();
            let name = String::from_str(line.substring_char(0, j));
            let value = String::from_str(line.substring_char(j + 2, n));
            proof {
                assert(name@ =~= line@.take(j as int));
                assert(value@ =~= line@.skip(j + 2));
            }
            Ok((name, value))
        },
    }
}

/// Splits one header line of bytes: reads it as UTF-8 text, then splits at
/// the first `": "`.
pub fn parse_header_line(line: &Vec<u8>) -> (r: Result<(String, String), ParseError>)
    ensures
        match r {
            Ok(p) => header_pair_of_bytes(line@) == Some((p.0@, p.1@)),
            Err(e) => header_pair_of_bytes(line@) is None && e == ParseError::MalformedHeader,
        },
{
    match utf8_to_string(line) {
        None => Err(ParseError::MalformedHeader),
        Some(text) => {
            proof {
                vstd::utf8::encode_utf8_valid_utf8(text@);
                vstd::utf8::encode_utf8_decode_utf8(text@);
                assert(line_text(line@) == Some(text@));
            }
            split_header_text(text.as_str())
        },
    }
}

/// The mapping a run of byte header lines denotes, later lines winning, or
/// nothing when some line is malformed.
pub open spec fn headers_map_spec(ls: Seq<Seq<u8>>) -> Option<Map<Seq<char>, Seq<char>>>
    decreases ls.len(),
{
    if ls.len() == 0 {
        Some(Map::<Seq<char>, Seq<char>>::empty())
    } else {
        match headers_map_spec(ls.drop_last()) {
            None => None::<Map<Seq<char>, Seq<char>>>,
            Some(m) => match header_pair_of_bytes(ls.last()) {
                None => None::<Map<Seq<char>, Seq<char>>>,
                Some(p) => Some(m.insert(p.0, p.1)),
            },
        }
    }
}

/// A malformed line anywhere in the run spoils the whole run.
proof fn lemma_headers_map_spec_prefix_none(ls: Seq<Seq<u8>>, i: int)
    requires
        0 <= i <= ls.len(),
        headers_map_spec(ls.take(i)) is None,
    ensures
        headers_map_spec(ls) is None,
    decreases ls.len() - i,
{
    if i < ls.len() {
        assert(ls.take(i + 1).drop_last() =~= ls.take(i));
        lemma_headers_map_spec_prefix_none(ls, i + 1);
    } else {
        assert(ls.take(i) =~= ls);
    }
}

/// Builds the header collection from the byte lines at `from` and after.
fn build_headers(lines: &Vec<Vec<u8>>, from: usize) -> (r: Result<Headers, ParseError>)
    requires
        from <= lines@.len(),
    ensures
        match r {
            Ok(h) => h.wf() && headers_map_spec(lines.deep_view().skip(from as int)) == Some(
                h.as_map(),
            ),
            Err(e) => headers_map_spec(lines.deep_view().skip(from as int)) is None && e
                == ParseError::MalformedHeader,
        },
{
    let ghost tail = lines.deep_view().skip(from as int);
    let mut h = Headers::new();
    let mut k = from;
    proof {
        assert(tail.take(0) =~= Seq::<Seq<u8>>::empty());
    }
    while k < lines.len()
        invariant
            from <= k <= lines@.len(),
            tail == lines.deep_view().skip(from as int),
            tail.len() == lines@.len() - from,
            h.wf(),
            headers_map_spec(tail.take(k - from)) == Some(h.as_map()),
        decreases lines@.len() - k,
    {
        proof {
            assert(lines.deep_view()[k as int] =~= lines@[k as int]@);
            assert(tail[k - from] == lines.deep_view()[k as int]);
        }
        match parse_header_line(&lines[k]) {
            Err(e) => {
                proof {
                    assert(tail.take(k - from + 1).drop_last() =~= tail.take(k - from));
                    assert(tail.take(k - from + 1).last() == tail[k - from]);
                    assert(headers_map_spec(tail.take(k - from + 1)) is None);
                    lemma_headers_map_spec_prefix_none(tail, k - from + 1);
                }
                return Err(e);
            },
            Ok((name, value)) => {
                proof {
                    assert(tail.take(k - from + 1).drop_last() =~= tail.take(k - from));
                    assert(tail.take(k - from + 1).last() == tail[k - from]);
                }
                h.insert(name, value);
            },
        }
        k += 1;
    }
    proof {
        assert(tail.take(k - from) =~= tail);
    }
    Ok(h)
}

/// The mapping a run of text header lines denotes.
pub open spec fn headers_map_chars(ls: Seq<Seq<char>>) -> Option<Map<Seq<char>, Seq<char>>>
    decreases ls.len(),
{
    if ls.len() == 0 {
        Some(Map::<Seq<char>, Seq<char>>::empty())
    } else {
        match headers_map_chars(ls.drop_last()) {
            None => None::<Map<Seq<char>, Seq<char>>>,
            Some(m) => match header_pair_chars(ls.last()) {
                None => None::<Map<Seq<char>, Seq<char>>>,
                Some(p) => Some(m.insert(p.0, p.1)),
            },
        }
    }
}

/// A line without the separator anywhere in the run spoils the whole run.
proof fn lemma_headers_map_chars_prefix_none(ls: Seq<Seq<char>>, i: int)
    requires
        0 <= i <= ls.len(),
        headers_map_chars(ls.take(i)) is None,
    ensures
        headers_map_chars(ls) is None,
    decreases ls.len() - i,
{
    if i < ls.len() {
        assert(ls.take(i + 1).drop_last() =~= ls.take(i));
        lemma_headers_map_chars_prefix_none(ls, i + 1);
    } else {
        assert(ls.take(i) =~= ls);
    }
}

/// The method a request-line token names.
pub open spec fn method_token(t: Seq<char>) -> Option<HttpMethod> {
    if t == "GET"@ {
        Some(HttpMethod::Get)
    } else if t == "POST"@ {
        Some(HttpMethod::Post)
    } else {
        None::<HttpMethod>
    }
}

/// How the first line of a request reads: exactly three whitespace-separated
/// tokens — a supported method, a path starting with `/`, and a version;
/// anything else is malformed.
pub open spec fn request_line_chars(l: Seq<char>) -> Option<(HttpMethod, Seq<char>)> {
    let ts = tokens_from(l, 0);
    if ts.len() != 3 {
        None::<(HttpMethod, Seq<char>)>
    } else {
        match method_token(ts[0]) {
            None => None::<(HttpMethod, Seq<char>)>,
            Some(m) => if ts[1].len() > 0 && ts[1][0] == '/' {
                Some((m, ts[1]))
            } else {
                None::<(HttpMethod, Seq<char>)>
            },
        }
    }
}

/// Reads the request line.
pub fn parse_request_line(line: &str) -> (r: Result<(HttpMethod, String), ParseError>)
    ensures
        match r {
            Ok(p) => request_line_chars(line@) == Some((p.0, p.1@)) && p.1@.len() > 0 && p.1@[0]
                == '/',
            Err(e) => request_line_chars(line@) is None && e == ParseError::MalformedRequestLine,
        },
{
    proof {
        reveal_strlit("GET");
        reveal_strlit("POST");
        assert("GET"@.len() == 3);
        assert("POST"@.len() == 4);
        assert("GET"@ != "POST"@);
    }
    let tokens = tokenize(line);
    if tokens.len() != 3 {
        return Err(ParseError::MalformedRequestLine);
    }
    proof {
        assert(tokens.deep_view()[0] =~= tokens@[0]@);
        assert(tokens.deep_view()[1] =~= tokens@[1]@);
    }
    let method = match HttpMethod::from_str(tokens[0].as_str()) {
        Ok(m) => m,
        Err(_) => {
            return Err(ParseError::MalformedRequestLine);
        },
    };
    let path = tokens[1].clone();
    let path_str = path.as_str();
    if path_str.unicode_len() == 0 || path_str.get_char(0) != '/' {
        return Err(ParseError::MalformedRequestLine);
    }
    Ok((method, path))
}

/// The parsed header block of a request: everything but the body.
pub struct RequestHead {
    pub http_method: HttpMethod,
    pub path: String,
    pub headers: Headers,
}

/// How a whole header block reads: the request line, then the header lines,
/// each byte line read as UTF-8 text.
pub open spec fn request_head_spec(ls: Seq<Seq<u8>>) -> Result<
    (HttpMethod, Seq<char>, Map<Seq<char>, Seq<char>>),
    ParseError,
> {
    if ls.len() == 0 {
        Err(ParseError::MalformedRequestLine)
    } else {
        match line_text(ls[0]) {
            None => Err(ParseError::MalformedRequestLine),
            Some(t) => match request_line_chars(t) {
                None => Err(ParseError::MalformedRequestLine),
                Some((m, p)) => match headers_map_spec(ls.skip(1)) {
                    None => Err(ParseError::MalformedHeader),
                    Some(hm) => Ok((m, p, hm)),
                },
            },
        }
    }
}

impl HttpRequest {
    /// Reads method, path and headers from the stripped lines of a header
    /// block.
    pub fn from_head_lines(lines: &Vec<Vec<u8>>) -> (r: Result<RequestHead, ParseError>)
        ensures
            match r {
                Ok(h) => request_head_spec(lines.deep_view()) == Ok::<_, ParseError>(
                    (h.http_method, h.path@, h.headers.as_map()),
                ) && h.headers.wf() && h.path@.len() > 0 && h.path@[0] == '/',
                Err(e) => request_head_spec(lines.deep_view()) == Err::<
                    (HttpMethod, Seq<char>, Map<Seq<char>, Seq<char>>),
                    _,
                >(e),
            },
    {
        if lines.len() == 0 {
            return Err(ParseError::MalformedRequestLine);
        }
        proof {
            assert(lines.deep_view()[0] =~= lines@[0]@);
        }
        let first_text = match utf8_to_string(&lines[0]) {
            None => {
                return Err(ParseError::MalformedRequestLine);
            },
            Some(t) => t,
        };
        proof {
            vstd::utf8::encode_utf8_valid_utf8(first_text@);
            vstd::utf8::encode_utf8_decode_utf8(first_text@);
            assert(line_text(lines.deep_view()[0]) == Some(first_text@));
        }
        let (method, path) = match parse_request_line(first_text.as_str()) {
            Ok(p) => p,
            Err(e) => {
                return Err(e);
            },
        };
        let headers = match build_headers(lines, 1) {
            Ok(h) => h,
            Err(e) => {
                return Err(e);
            },
        };
        Ok(RequestHead { http_method: method, path, headers })
    }

    /// Reads a header collection from `"Name: value"` lines of text.
    pub fn parse_headers(lines: &Vec<String>) -> (r: Result<Headers, ParseError>)
        ensures
            match r {
                Ok(h) => h.wf() && headers_map_chars(lines.deep_view()) == Some(h.as_map()),
                Err(e) => headers_map_chars(lines.deep_view()) is None && e
                    == ParseError::MalformedHeader,
            },
    {
        let ghost all = lines.deep_view();
        let mut h = Headers::new();
        let mut k: usize = 0;
        proof {
            assert(all.take(0) =~= Seq::<Seq<char>>::empty());
        }
        while k < lines.len()
            invariant
                0 <= k <= lines@.len(),
                all == lines.deep_view(),
                all.len() == lines@.len(),
                h.wf(),
                headers_map_chars(all.take(k as int)) == Some(h.as_map()),
            decreases lines@.len() - k,
        {
            proof {
                assert(all[k as int] =~= lines@[k as int]@);
                assert(all.take(k + 1).drop_last() =~= all.take(k as int));
                assert(all.take(k + 1).last() == all[k as int]);
            }
            match split_header_text(lines[k].as_str()) {
                Err(e) => {
                    proof {
                        assert(headers_map_chars(all.take(k + 1)) is None);
                        lemma_headers_map_chars_prefix_none(all, k + 1);
                    }
                    return Err(e);
                },
                Ok((name, value)) => {
                    h.insert(name, value);
                },
            }
            k += 1;
        }
        proof {
            assert(all.take(k as int) =~= all);
        }
        Ok(h)
    }
}

/// The body length a header mapping requires: the `Content-Length` value
/// when present and well-formed, zero when the header is absent.
pub open spec fn body_len_required(m: Map<Seq<char>, Seq<char>>) -> Option<nat> {
    if m.contains_key("Content-Length"@) {
        let v = m["Content-Length"@];
        if v.len() > 0 && all_digits(v) {
            Some(dec_value(v))
        } else {
            None::<nat>
        }
    } else {
        Some(0nat)
    }
}

/// How many body bytes the headers announce.
pub fn required_body_len(headers: &Headers) -> (r: Result<usize, ParseError>)
    requires
        headers.wf(),
    ensures
        match r {
            Ok(n) => body_len_required(headers.as_map()) == Some(n as nat),
            Err(e) => e == ParseError::InvalidContentLength && match body_len_required(
                headers.as_map(),
            ) {
                Some(n) => n > usize::MAX,
                None => true,
            },
        },
{
    let key = String::from_str("Content-Length");
    match headers.get(&key) {
        None => Ok(0),
        Some(v) => match dec_parse(v.as_str()) {
            Some(n) => Ok(n),
            None => Err(ParseError::InvalidContentLength),
        },
    }
}

impl HttpRequest {
    /// Joins a parsed head with the body read for it; refuses a body whose
    /// length is not the one the headers announce.
    pub fn from_parts(head: RequestHead, body: Vec<u8>) -> (r: Option<HttpRequest>)
        requires
            head.headers.wf(),
            head.path@.len() > 0,
            head.path@[0] == '/',
        ensures
            match r {
                Some(req) => body_len_required(head.headers.as_map()) == Some(body@.len())
                    && req.wf() && req.http_method == head.http_method && req.path == head.path
                    && req.headers == head.headers && req.body == body,
                None => body_len_required(head.headers.as_map()) != Some(body@.len()),
            },
    {
        proof {
            vstd::std_specs::vec::axiom_spec_len(&body);
        }
        let expected = match required_body_len(&head.headers) {
            Ok(n) => n,
            Err(_) => {
                return None;
            },
        };
        if body.len() != expected {
            return None;
        }
        Some(
            HttpRequest {
                http_method: head.http_method,
                path: head.path,
                headers: head.headers,
                body,
            },
        )
    }
}

} // verus!

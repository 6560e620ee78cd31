//! A minimal client-side decoder for the responses this server serializes,
//! and the proof that decoding undoes serializing.
use vstd::prelude::*;

use crate::ascii::ascii_chars;
use crate::ascii::bytes_of;
use crate::headers::unique_names;
use crate::headers::Headers;
use crate::model::colon_space;
use crate::model::header_block_wire;
use crate::model::header_line_wire;
use crate::model::response_wire;
use crate::model::status_line_view;
use crate::model::wire_crlf;
use crate::model::HttpResponse;
use crate::model::HttpResponseStatus;
use crate::parse::header_pair_chars;
use crate::parse::header_pair_of_bytes;
use crate::parse::line_text;
use crate::parse::parse_header_line;
use crate::scan::lemma_first_pair_exact;
use crate::scan::bytes_eq;
use crate::scan::find_pair;
use crate::scan::first_pair_from;
use crate::scan::lemma_first_pair_from;
use crate::scan::lemma_first_pair_shift;
use crate::scan::range_bytes;
use crate::scan::tail_bytes;
use vstd::utf8::encode_utf8;

verus! {

/// The header lines of a response and the body after them: lines are cut at
/// each CRLF until a blank line; what follows the blank line is the body.
pub open spec fn dec_lines(s: Seq<u8>) -> Option<(Seq<Seq<u8>>, Seq<u8>)>
    decreases s.len(),
    via dec_lines_dec
{
    match first_pair_from(s, 0, 13, 10) {
        None => None::<(Seq<Seq<u8>>, Seq<u8>)>,
        Some(j) => if j == 0 {
            Some((Seq::<Seq<u8>>::empty(), s.skip(2)))
        } else {
            match dec_lines(s.skip(j + 2)) {
                None => None::<(Seq<Seq<u8>>, Seq<u8>)>,
                Some(p) => Some((seq![s.take(j)] + p.0, p.1)),
            }
        },
    }
}

#[via_fn]
proof fn dec_lines_dec(s: Seq<u8>) {
    lemma_first_pair_from(s, 0, 13, 10);
}

/// The status a decoded status line names, read off the three fixed texts.
pub open spec fn status_of_line(l: Seq<u8>) -> Option<HttpResponseStatus> {
    if l == bytes_of(status_line_view(HttpResponseStatus::Okay)) {
        Some(HttpResponseStatus::Okay)
    } else if l == bytes_of(status_line_view(HttpResponseStatus::Created)) {
        Some(HttpResponseStatus::Created)
    } else if l == bytes_of(status_line_view(HttpResponseStatus::NotFound)) {
        Some(HttpResponseStatus::NotFound)
    } else {
        None::<HttpResponseStatus>
    }
}

/// The name/value pairs the header lines hold, in order.
pub open spec fn pairs_of_lines(ls: Seq<Seq<u8>>) -> Option<Seq<(Seq<char>, Seq<char>)>>
    decreases ls.len(),
{
    if ls.len() == 0 {
        Some(Seq::<(Seq<char>, Seq<char>)>::empty())
    } else {
        match pairs_of_lines(ls.drop_last()) {
            None => None::<Seq<(Seq<char>, Seq<char>)>>,
            Some(ps) => match header_pair_of_bytes(ls.last()) {
                None => None::<Seq<(Seq<char>, Seq<char>)>>,
                Some(p) => Some(ps.push(p)),
            },
        }
    }
}

/// What decoding a response means: status, header pairs in order, body.
/// A stream without a blank line, an unknown status line, a malformed
/// header line, or a repeated header name is refused.
pub open spec fn response_decode_spec(s: Seq<u8>) -> Option<
    (HttpResponseStatus, Seq<(Seq<char>, Seq<char>)>, Seq<u8>),
> {
    match dec_lines(s) {
        None => None,
        Some(lb) => if lb.0.len() == 0 {
            None
        } else {
            match status_of_line(lb.0[0]) {
                None => None,
                Some(st) => match pairs_of_lines(lb.0.skip(1)) {
                    None => None,
                    Some(ps) => if unique_names(ps) {
                        Some((st, ps, lb.1))
                    } else {
                        None
                    },
                },
            }
        },
    }
}

/// Cuts the head of the stream into its lines, returning them with the
/// position where the body starts.
fn split_head_lines(v: &Vec<u8>, pos: usize) -> (r: Option<(Vec<Vec<u8>>, usize)>)
    requires
        pos <= v@.len(),
    ensures
        match r {
            Some(p) => pos <= p.1 <= v@.len() && dec_lines(v@.skip(pos as int)) == Some(
                (p.0.deep_view(), v@.skip(p.1 as int)),
            ),
            None => dec_lines(v@.skip(pos as int)) is None,
        },
    decreases v@.len() - pos,
{
    let ghost s = v@.skip(pos as int);
    proof {
        vstd::std_specs::vec::axiom_spec_len(v);
        lemma_first_pair_shift(v@, pos as int, 13, 10);
    }
    match find_pair(v, pos, 13, 10) {
        None => None,
        Some(j) => {
            if j == pos {
                let empty_lines: Vec<Vec<u8>> = Vec::new();
                proof {
                    assert(first_pair_from(s, 0, 13, 10) == Some(0int));
                    assert(s.skip(2) =~= v@.skip(pos + 2));
                    assert(empty_lines.deep_view() =~~= Seq::<Seq<u8>>::empty());
                }
                Some((empty_lines, pos + 2))
            } else {
                proof {
                    assert(first_pair_from(s, 0, 13, 10) == Some(j - pos));
                    assert(s.skip((j - pos) + 2) =~= v@.skip(j + 2));
                }
                let line = range_bytes(v, pos, j);
                match split_head_lines(v, j + 2) {
                    None => None,
                    Some((ls, b)) => {
                        let mut ls = ls;
                        let ghost pre = ls.deep_view();
                        ls.insert(0, line);
                        proof {
                            assert(ls.deep_view() =~~= seq![line@] + pre);
                            assert(s.take(j - pos) =~= v@.subrange(pos as int, j as int));
                        }
                        Some((ls, b))
                    },
                }
            }
        },
    }
}

/// The status named by a status-line as decoded off the wire.
fn status_from_line(line: &Vec<u8>) -> (r: Option<HttpResponseStatus>)
    ensures
        r == status_of_line(line@),
{
    proof {
        crate::model::lemma_status_lines(HttpResponseStatus::Okay);
        crate::model::lemma_status_lines(HttpResponseStatus::Created);
        crate::model::lemma_status_lines(HttpResponseStatus::NotFound);
    }
    let ok_line = crate::http_response::get_response_status_line(&HttpResponseStatus::Okay);
    let ok_bytes = crate::ascii::string_bytes(ok_line.as_str());
    if bytes_eq(line, &ok_bytes) {
        return Some(HttpResponseStatus::Okay);
    }
    let created_line = crate::http_response::get_response_status_line(
        &HttpResponseStatus::Created,
    );
    let created_bytes = crate::ascii::string_bytes(created_line.as_str());
    if bytes_eq(line, &created_bytes) {
        return Some(HttpResponseStatus::Created);
    }
    let not_found_line = crate::http_response::get_response_status_line(
        &HttpResponseStatus::NotFound,
    );
    let not_found_bytes = crate::ascii::string_bytes(not_found_line.as_str());
    if bytes_eq(line, &not_found_bytes) {
        return Some(HttpResponseStatus::NotFound);
    }
    None
}

/// A prefix of header pairs comes from the same prefix of lines.
proof fn lemma_pairs_prefix(ls: Seq<Seq<u8>>, i: int)
    requires
        0 <= i <= ls.len(),
        pairs_of_lines(ls) is Some,
    ensures
        pairs_of_lines(ls.take(i)) == Some(pairs_of_lines(ls).unwrap().take(i)),
    decreases ls.len(),
{
    let ps = pairs_of_lines(ls).unwrap();
    lemma_pairs_len(ls);
    if ls.len() == 0 {
        assert(ls.take(i) =~= ls);
        assert(ps.take(i) =~= ps);
    } else if i == ls.len() {
        assert(ls.take(i) =~= ls);
        assert(ps.take(i) =~= ps);
    } else {
        let ps0 = pairs_of_lines(ls.drop_last()).unwrap();
        lemma_pairs_len(ls.drop_last());
        lemma_pairs_prefix(ls.drop_last(), i);
        assert(ls.take(i) =~= ls.drop_last().take(i));
        assert(ps.take(i) =~= ps0.take(i));
    }
}

/// A malformed line anywhere spoils the whole run of header lines.
proof fn lemma_pairs_prefix_none(ls: Seq<Seq<u8>>, i: int)
    requires
        0 <= i <= ls.len(),
        pairs_of_lines(ls.take(i)) is None,
    ensures
        pairs_of_lines(ls) is None,
    decreases ls.len() - i,
{
    if i < ls.len() {
        assert(ls.take(i + 1).drop_last() =~= ls.take(i));
        lemma_pairs_prefix_none(ls, i + 1);
    } else {
        assert(ls.take(i) =~= ls);
    }
}

/// As many pairs come out as lines went in.
proof fn lemma_pairs_len(ls: Seq<Seq<u8>>)
    requires
        pairs_of_lines(ls) is Some,
    ensures
        pairs_of_lines(ls).unwrap().len() == ls.len(),
    decreases ls.len(),
{
    if ls.len() > 0 {
        lemma_pairs_len(ls.drop_last());
    }
}

/// Once a header name repeats, the decoded pairs cannot have unique names.
proof fn lemma_dup_means_not_unique(
    ls: Seq<Seq<u8>>,
    idx: int,
    prefix_ps: Seq<(Seq<char>, Seq<char>)>,
    newp: (Seq<char>, Seq<char>),
)
    requires
        0 <= idx < ls.len(),
        pairs_of_lines(ls.take(idx)) == Some(prefix_ps),
        header_pair_of_bytes(ls[idx]) == Some(newp),
        exists|i: int| 0 <= i < prefix_ps.len() && (#[trigger] prefix_ps[i]).0 == newp.0,
    ensures
        match pairs_of_lines(ls) {
            Some(ps) => !unique_names(ps),
            None => true,
        },
{
    if pairs_of_lines(ls) is Some {
        let ps = pairs_of_lines(ls).unwrap();
        lemma_pairs_len(ls);
        lemma_pairs_len(ls.take(idx));
        lemma_pairs_prefix(ls, idx);
        lemma_pairs_prefix(ls, idx + 1);
        assert(ls.take(idx).len() == idx);
        assert(prefix_ps.len() == idx);
        assert(ls.take(idx + 1).drop_last() =~= ls.take(idx));
        assert(ls.take(idx + 1).last() == ls[idx]);
        assert(pairs_of_lines(ls.take(idx + 1)) == Some(prefix_ps.push(newp)));
        assert(ps.take(idx + 1) =~= prefix_ps.push(newp));
        assert(ps.take(idx) =~= prefix_ps);
        let i = choose|i: int| 0 <= i < prefix_ps.len() && (#[trigger] prefix_ps[i]).0 == newp.0;
        assert(ps[i] == ps.take(idx)[i]);
        assert(ps[idx] == ps.take(idx + 1)[idx]);
        assert(ps[i].0 == ps[idx].0);
        assert(!unique_names(ps));
    }
}

/// Decodes a serialized response: its status, its headers in order, and its
/// body. Refuses anything this server's serializer cannot have produced.
pub fn parse_response(bytes: &Vec<u8>) -> (r: Option<HttpResponse>)
    ensures
        match r {
            Some(resp) => resp.wf() && response_decode_spec(bytes@) == Some(
                (resp.status, resp.headers.entries_view(), resp.body@),
            ),
            None => response_decode_spec(bytes@) is None,
        },
{
    proof {
        assert(bytes@.skip(0) =~= bytes@);
    }
    let (lines, body_start) = match split_head_lines(bytes, 0) {
        None => {
            return None;
        },
        Some(p) => p,
    };
    if lines.len() == 0 {
        return None;
    }
    proof {
        assert(lines.deep_view()[0] =~= lines@[0]@);
    }
    let status = match status_from_line(&lines[0]) {
        None => {
            return None;
        },
        Some(st) => st,
    };
    let ghost hl = lines.deep_view().skip(1);
    let mut headers = Headers::new();
    let mut k: usize = 1;
    proof {
        assert(hl.take(0) =~= Seq::<Seq<u8>>::empty());
    }
    while k < lines.len()
        invariant
            1 <= k <= lines@.len(),
            hl == lines.deep_view().skip(1),
            hl.len() == lines@.len() - 1,
            lines.deep_view().len() == lines@.len(),
            body_start <= bytes@.len(),
            dec_lines(bytes@) == Some((lines.deep_view(), bytes@.skip(body_start as int))),
            status_of_line(lines.deep_view()[0]) == Some(status),
            headers.wf(),
            pairs_of_lines(hl.take(k - 1)) == Some(headers.entries_view()),
        decreases lines@.len() - k,
    {
        proof {
            assert(lines.deep_view()[k as int] =~= lines@[k as int]@);
            assert(hl[k - 1] == lines.deep_view()[k as int]);
            assert(hl.take(k - 1 + 1).drop_last() =~= hl.take(k - 1));
            assert(hl.take(k - 1 + 1).last() == hl[k - 1]);
        }
        match parse_header_line(&lines[k]) {
            Err(_) => {
                proof {
                    assert(pairs_of_lines(hl.take(k - 1 + 1)) is None);
                    lemma_pairs_prefix_none(hl, k - 1 + 1);
                }
                return None;
            },
            Ok((name, value)) => {
                if headers.contains_key(&name) {
                    proof {
                        crate::headers::lemma_map_of_domain(headers.entries_view(), name@);
                        lemma_dup_means_not_unique(
                            hl,
                            k - 1,
                            headers.entries_view(),
                            (name@, value@),
                        );
                    }
                    return None;
                }
                proof {
                    crate::headers::lemma_map_of_domain(headers.entries_view(), name@);
                }
                headers.insert(name, value);
            },
        }
        k += 1;
    }
    proof {
        assert(hl.take(k - 1) =~= hl);
    }
    let body = tail_bytes(bytes, body_start);
    let status_line = crate::http_response::get_response_status_line(&status);
    Some(HttpResponse { status, status_line, headers, body })
}

/// A line fit for the head of a message: non-empty, free of CR and LF.
pub open spec fn line_ok(l: Seq<u8>) -> bool {
    l.len() > 0 && forall|k: int| 0 <= k < l.len() ==> #[trigger] l[k] != 13 && l[k] != 10
}

/// Lines joined back to back, each followed by CRLF.
spec fn join_lines(ls: Seq<Seq<u8>>) -> Seq<u8>
    decreases ls.len(),
{
    if ls.len() == 0 {
        Seq::<u8>::empty()
    } else {
        ls.first() + wire_crlf() + join_lines(ls.drop_first())
    }
}

proof fn lemma_join_push(ls: Seq<Seq<u8>>, l: Seq<u8>)
    ensures
        join_lines(ls.push(l)) == join_lines(ls) + l + wire_crlf(),
    decreases ls.len(),
{
    assert(ls.push(l).len() == ls.len() + 1);
    assert(join_lines(ls.push(l)) == ls.push(l).first() + wire_crlf() + join_lines(
        ls.push(l).drop_first(),
    ));
    if ls.len() == 0 {
        assert(ls.push(l).drop_first() =~~= Seq::<Seq<u8>>::empty());
        assert(ls.push(l).first() == l);
        assert(join_lines(Seq::<Seq<u8>>::empty()) == Seq::<u8>::empty());
        assert(join_lines(ls.push(l)) =~= join_lines(ls) + l + wire_crlf());
    } else {
        assert(ls.push(l).first() == ls.first());
        assert(ls.push(l).drop_first() =~~= ls.drop_first().push(l));
        lemma_join_push(ls.drop_first(), l);
        assert(join_lines(ls.push(l)) =~= join_lines(ls) + l + wire_crlf());
    }
}

/// The header lines of a set of pairs, in order.
spec fn line_seqs(ps: Seq<(Seq<char>, Seq<char>)>) -> Seq<Seq<u8>> {
    Seq::new(ps.len(), |i: int| header_line_wire(ps[i].0, ps[i].1))
}

/// The serialized header block is those lines joined.
proof fn lemma_block_is_join(ps: Seq<(Seq<char>, Seq<char>)>)
    ensures
        header_block_wire(ps) == join_lines(line_seqs(ps)),
    decreases ps.len(),
{
    if ps.len() == 0 {
        assert(line_seqs(ps) =~~= Seq::<Seq<u8>>::empty());
    } else {
        lemma_block_is_join(ps.drop_last());
        let line = header_line_wire(ps.last().0, ps.last().1);
        assert(line_seqs(ps) =~~= line_seqs(ps.drop_last()).push(line));
        lemma_join_push(line_seqs(ps.drop_last()), line);
    }
}

/// Cutting lines undoes joining them, for lines free of CR and LF.
proof fn lemma_dec_lines_join(ls: Seq<Seq<u8>>, body: Seq<u8>)
    requires
        forall|i: int| 0 <= i < ls.len() ==> line_ok(#[trigger] ls[i]),
    ensures
        dec_lines(join_lines(ls) + wire_crlf() + body) == Some((ls, body)),
    decreases ls.len(),
{
    let s = join_lines(ls) + wire_crlf() + body;
    if ls.len() == 0 {
        assert(s =~= wire_crlf() + body);
        assert(s[0] == 13 && s[1] == 10);
        assert(first_pair_from(s, 0, 13, 10) == Some(0int));
        assert(s.skip(2) =~= body);
    } else {
        let l0 = ls.first();
        let t = join_lines(ls.drop_first()) + wire_crlf() + body;
        assert(line_ok(l0)) by {
            assert(l0 == ls[0]);
        }
        assert(s =~= l0 + wire_crlf() + t);
        let n = l0.len() as int;
        assert(s[n] == 13 && s[n + 1] == 10);
        assert forall|k: int| 0 <= k < n implies !(#[trigger] s[k] == 13 && s[k + 1] == 10) by {
            assert(s[k] == l0[k]);
        }
        lemma_first_pair_exact(s, n, 13, 10);
        assert forall|i: int| 0 <= i < ls.drop_first().len() implies line_ok(
            #[trigger] ls.drop_first()[i],
        ) by {
            assert(ls.drop_first()[i] == ls[i + 1]);
        }
        lemma_dec_lines_join(ls.drop_first(), body);
        assert(s.skip(n + 2) =~= t);
        assert(s.take(n) =~= l0);
        assert(seq![l0] + ls.drop_first() =~~= ls);
        assert(dec_lines(s) == Some((ls, body)));
    }
}

/// No `": "` separator occurs inside the name.
pub open spec fn no_colon_space(s: Seq<char>) -> bool {
    forall|k: int| 0 <= k < s.len() - 1 ==> !(#[trigger] s[k] == ':' && s[k + 1] == ' ')
}

/// Text that can stand in the head of a message: ASCII, free of CR and LF.
pub open spec fn wire_text(s: Seq<char>) -> bool {
    ascii_chars(s) && forall|k: int| 0 <= k < s.len() ==> #[trigger] s[k] != '\r' && s[k] != '\n'
}

/// Header pairs fit for the wire: names and values are wire text, and no
/// name holds the separator.
pub open spec fn wire_pairs_ok(ps: Seq<(Seq<char>, Seq<char>)>) -> bool {
    forall|i: int|
        0 <= i < ps.len() ==> wire_text((#[trigger] ps[i]).0) && wire_text(ps[i].1)
            && no_colon_space(ps[i].0)
}

/// ASCII text encodes byte for byte.
proof fn lemma_encode_ascii(s: Seq<char>)
    requires
        ascii_chars(s),
    ensures
        encode_utf8(s) == bytes_of(s),
{
    assert(vstd::utf8::is_ascii_chars(s));
    vstd::utf8::is_ascii_chars_encode_utf8(s);
    assert(encode_utf8(s) =~= bytes_of(s));
}

/// A serialized header line reads back as text and splits at the first
/// `": "` into the name and the value.
proof fn lemma_header_pair_of_line(n: Seq<char>, v: Seq<char>)
    requires
        wire_text(n),
        wire_text(v),
        no_colon_space(n),
    ensures
        header_pair_of_bytes(header_line_wire(n, v)) == Some((n, v)),
        line_ok(header_line_wire(n, v)),
{
    lemma_encode_ascii(n);
    lemma_encode_ascii(v);
    let l = header_line_wire(n, v);
    let m = n.len() as int;
    let w = n + seq![':', ' '] + v;
    assert(l =~= bytes_of(n) + colon_space() + bytes_of(v));
    assert(ascii_chars(w)) by {
        assert forall|k: int| 0 <= k < w.len() implies '\0' <= #[trigger] w[k] <= '\u{7f}' by {
            if k < m {
                assert(w[k] == n[k]);
            } else if k >= m + 2 {
                assert(w[k] == v[k - m - 2]);
            } else if k == m {
                assert(w[k] == ':');
            } else {
                assert(w[k] == ' ');
            }
        }
    }
    lemma_encode_ascii(w);
    assert(l =~= bytes_of(w)) by {
        assert forall|k: int| 0 <= k < l.len() implies #[trigger] l[k] == w[k] as u8 by {
            if k < m {
                assert(l[k] == n[k] as u8 && w[k] == n[k]);
            } else if k >= m + 2 {
                assert(l[k] == v[k - m - 2] as u8 && w[k] == v[k - m - 2]);
            } else if k == m {
                assert(l[k] == 58 && w[k] == ':');
            } else {
                assert(l[k] == 32 && w[k] == ' ');
            }
        }
    }
    vstd::utf8::encode_utf8_valid_utf8(w);
    vstd::utf8::encode_utf8_decode_utf8(w);
    assert(line_text(l) == Some(w));
    assert forall|k: int| 0 <= k < l.len() implies #[trigger] l[k] != 13 && l[k] != 10 by {
        assert(l[k] == w[k] as u8);
        if k < m {
            assert(n[k] != '\r' && n[k] != '\n');
        } else if k >= m + 2 {
            assert(v[k - m - 2] != '\r' && v[k - m - 2] != '\n');
        }
    }
    assert(line_ok(l));
    assert(w[m] == ':' && w[m + 1] == ' ');
    assert forall|k: int| 0 <= k < m implies !(#[trigger] w[k] == ':' && w[k + 1] == ' ') by {
        if k < m - 1 {
            assert(w[k] == n[k] && w[k + 1] == n[k + 1]);
            assert(!(n[k] == ':' && n[k + 1] == ' '));
        } else {
            assert(w[k + 1] == ':');
        }
    }
    lemma_first_pair_exact(w, m, ':', ' ');
    assert(w.take(m) =~= n);
    assert(w.skip(m + 2) =~= v);
    assert(header_pair_chars(w) == Some((n, v)));
}

/// Decoding the serialized header lines recovers the pairs, in order.
proof fn lemma_pairs_round(ps: Seq<(Seq<char>, Seq<char>)>)
    requires
        wire_pairs_ok(ps),
    ensures
        pairs_of_lines(line_seqs(ps)) == Some(ps),
    decreases ps.len(),
{
    if ps.len() == 0 {
        assert(line_seqs(ps) =~~= Seq::<Seq<u8>>::empty());
    } else {
        assert forall|i: int| 0 <= i < ps.drop_last().len() implies wire_text(
            (#[trigger] ps.drop_last()[i]).0,
        ) && wire_text(ps.drop_last()[i].1) && no_colon_space(ps.drop_last()[i].0) by {
            assert(ps.drop_last()[i] == ps[i]);
        }
        lemma_pairs_round(ps.drop_last());
        let last = ps.last();
        assert(wire_text(last.0) && wire_text(last.1) && no_colon_space(last.0)) by {
            assert(ps[ps.len() - 1] == last);
        }
        lemma_header_pair_of_line(last.0, last.1);
        assert(line_seqs(ps).drop_last() =~~= line_seqs(ps.drop_last()));
        assert(line_seqs(ps).last() == header_line_wire(last.0, last.1));
        assert(ps.drop_last().push(last) =~~= ps);
        assert(pairs_of_lines(line_seqs(ps)) == Some(ps));
    }
}

/// Decoding undoes serializing: for a well-formed response whose header
/// pairs can travel in a message head, decoding the serialized bytes yields
/// the same status, the same header pairs in the same order, and the same
/// body.
pub proof fn lemma_response_round_trip(r: HttpResponse)
    requires
        r.wf(),
        wire_pairs_ok(r.headers.entries_view()),
    ensures
        response_decode_spec(response_wire(r)) == Some(
            (r.status, r.headers.entries_view(), r.body@),
        ),
{
    let ps = r.headers.entries_view();
    let sl = status_line_view(r.status);
    crate::model::lemma_status_lines(HttpResponseStatus::Okay);
    crate::model::lemma_status_lines(HttpResponseStatus::Created);
    crate::model::lemma_status_lines(HttpResponseStatus::NotFound);
    lemma_encode_ascii(sl);
    let all = seq![bytes_of(sl)] + line_seqs(ps);
    lemma_block_is_join(ps);
    assert(all.first() == bytes_of(sl));
    assert(all.drop_first() =~~= line_seqs(ps));
    assert(join_lines(all) =~= bytes_of(sl) + wire_crlf() + join_lines(line_seqs(ps)));
    assert(response_wire(r) =~= join_lines(all) + wire_crlf() + r.body@);
    assert forall|i: int| 0 <= i < all.len() implies line_ok(#[trigger] all[i]) by {
        if i == 0 {
            assert(all[i] == bytes_of(sl));
            assert forall|k: int| 0 <= k < sl.len() implies #[trigger] bytes_of(sl)[k] != 13
                && bytes_of(sl)[k] != 10 by {
                assert(bytes_of(sl)[k] == sl[k] as u8);
                assert(sl[k] != '\r' && sl[k] != '\n');
            }
        } else {
            assert(all[i] == line_seqs(ps)[i - 1]);
            assert(wire_text(ps[i - 1].0) && wire_text(ps[i - 1].1) && no_colon_space(
                ps[i - 1].0,
            ));
            lemma_header_pair_of_line(ps[i - 1].0, ps[i - 1].1);
        }
    }
    lemma_dec_lines_join(all, r.body@);
    let wire = response_wire(r);
    assert(dec_lines(wire) == Some((all, r.body@)));
    assert(all[0] == bytes_of(sl));
    assert(status_of_line(bytes_of(sl)) == Some(r.status)) by {
        crate::ascii::lemma_chars_of_bytes_of(sl);
        crate::ascii::lemma_chars_of_bytes_of(status_line_view(HttpResponseStatus::Okay));
        crate::ascii::lemma_chars_of_bytes_of(status_line_view(HttpResponseStatus::Created));
        crate::ascii::lemma_chars_of_bytes_of(status_line_view(HttpResponseStatus::NotFound));
    }
    assert(all.skip(1) =~~= line_seqs(ps));
    lemma_pairs_round(ps);
    assert(unique_names(ps));
    assert(response_decode_spec(wire) == Some((r.status, ps, r.body@)));
}


/// The content headers the response builders attach can travel on the wire
/// whenever the media type can: both names are plain ASCII words, and a
/// decimal length is digits. The round-trip law therefore applies to every
/// response the builders produce from such a media type.
pub proof fn lemma_content_headers_wire_ok(media_type: Seq<char>, len: nat)
    requires
        wire_text(media_type),
        no_colon_space(media_type),
    ensures
        wire_pairs_ok(crate::http_response::content_headers(media_type, len)),
{
    reveal_strlit("Content-Type");
    reveal_strlit("Content-Length");
    crate::http_response::lemma_content_header_names();
    crate::num::lemma_dec_rep_digits(len);
    let ct = "Content-Type"@;
    let cl = "Content-Length"@;
    let digits = crate::num::dec_rep(len);
    assert(wire_text(ct));
    assert(wire_text(cl));
    assert(no_colon_space(ct));
    assert(no_colon_space(cl));
    assert(wire_text(digits) && no_colon_space(digits)) by {
        assert(crate::num::all_digits(digits));
        assert(crate::ascii::ascii_chars(digits));
    }
    let ps = crate::http_response::content_headers(media_type, len);
    assert(ps[0] == (ct, media_type));
    assert(ps[1] == (cl, digits));
}



} // verus!

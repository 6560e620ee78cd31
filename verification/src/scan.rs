//! Scanning a line of a message: finding a two-element separator and
//! cutting a request line into whitespace-separated tokens.
use vstd::prelude::*;

use vstd::string::StrSliceExecFns;
use vstd::string::StringExecFns;

verus! {

/// The least position at or after `i` where `a` is followed by `b`, if any.
pub open spec fn first_pair_from<T>(s: Seq<T>, i: int, a: T, b: T) -> Option<int>
    decreases s.len() - i,
{
    if i < 0 || i + 2 > s.len() {
        None::<int>
    } else if s[i] == a && s[i + 1] == b {
        Some(i)
    } else {
        first_pair_from(s, i + 1, a, b)
    }
}

/// What `first_pair_from` returns: the first match at or after `i`, or none.
pub proof fn lemma_first_pair_from<T>(s: Seq<T>, i: int, a: T, b: T)
    requires
        0 <= i <= s.len(),
    ensures
        match first_pair_from(s, i, a, b) {
            Some(j) => i <= j && j + 2 <= s.len() && s[j] == a && s[j + 1] == b && forall|k: int|
                i <= k < j ==> !(#[trigger] s[k] == a && s[k + 1] == b),
            None => forall|k: int|
                i <= k && k + 2 <= s.len() ==> !(#[trigger] s[k] == a && s[k + 1] == b),
        },
    decreases s.len() - i,
{
    if i + 2 <= s.len() && !(s[i] == a && s[i + 1] == b) {
        lemma_first_pair_from(s, i + 1, a, b);
    }
}

/// A pair standing at a known position, with none before it, is the first.
pub proof fn lemma_first_pair_exact<T>(s: Seq<T>, n: int, a: T, b: T)
    requires
        0 <= n,
        n + 2 <= s.len(),
        s[n] == a,
        s[n + 1] == b,
        forall|k: int| 0 <= k < n ==> !(#[trigger] s[k] == a && s[k + 1] == b),
    ensures
        first_pair_from(s, 0, a, b) == Some(n),
{
    lemma_first_pair_from(s, 0, a, b);
    match first_pair_from(s, 0, a, b) {
        Some(j) => {
            if j < n {
                assert(!(s[j] == a && s[j + 1] == b));
                assert(false);
            }
            if j > n {
                assert(false);
            }
        },
        None => {
            assert(false);
        },
    }
}

/// Looking from position `i` in the whole sequence is looking from the start
/// of the suffix at `i`.
pub proof fn lemma_first_pair_shift<T>(s: Seq<T>, i: int, a: T, b: T)
    requires
        0 <= i <= s.len(),
    ensures
        first_pair_from(s, i, a, b) == match first_pair_from(s.skip(i), 0, a, b) {
            Some(j) => Some(i + j),
            None => None::<int>,
        },
{
    let t = s.skip(i);
    lemma_first_pair_from(s, i, a, b);
    lemma_first_pair_from(t, 0, a, b);
    assert(forall|k: int| 0 <= k < t.len() ==> t[k] == s[i + k]);
    match first_pair_from(s, i, a, b) {
        Some(j) => {
            match first_pair_from(t, 0, a, b) {
                Some(j2) => {
                    assert(t[j2] == s[i + j2] && t[j2 + 1] == s[i + j2 + 1]);
                    if i + j2 < j {
                        assert(false);
                    }
                    if j < i + j2 {
                        assert(t[j - i] == a && t[j - i + 1] == b);
                        assert(false);
                    }
                },
                None => {
                    assert(t[j - i] == a && t[j - i + 1] == b);
                    assert(false);
                },
            }
        },
        None => {
            match first_pair_from(t, 0, a, b) {
                Some(j2) => {
                    assert(s[i + j2] == a && s[i + j2 + 1] == b);
                    assert(false);
                },
                None => {},
            }
        },
    }
}

/// Finds the first position at or after `start` where byte `a` is followed
/// by byte `b`.
pub fn find_pair(v: &Vec<u8>, start: usize, a: u8, b: u8) -> (r: Option<usize>)
    requires
        start <= v@.len(),
    ensures
        match r {
            Some(j) => first_pair_from(v@, start as int, a, b) == Some(j as int) && start <= j && j
                + 2 <= v@.len() && v@[j as int] == a && v@[j + 1] == b,
            None => first_pair_from(v@, start as int, a, b) is None,
        },
{
    let mut j = start;
    while j < v.len() && j + 1 < v.len()
        invariant
            start <= j,
            j <= v@.len(),
            first_pair_from(v@, start as int, a, b) == first_pair_from(v@, j as int, a, b),
        decreases v@.len() - j,
    {
        if v[j] == a && v[j + 1] == b {
            proof {
                lemma_first_pair_from(v@, start as int, a, b);
            }
            return Some(j);
        }
        j += 1;
    }
    None
}

/// Finds the first position in the text where character `a` is followed by
/// character `b`.
pub fn find_char_pair(s: &str, a: char, b: char) -> (r: Option<usize>)
    ensures
        match r {
            Some(j) => first_pair_from(s@, 0, a, b) == Some(j as int) && j + 2 <= s@.len() && s@[j
                as int] == a && s@[j + 1] == b,
            None => first_pair_from(s@, 0, a, b) is None,
        },
{
    let n = s.unicode_len();
    let mut j: usize = 0;
    while j < n && j + 1 < n
        invariant
            0 <= j <= n,
            n == s@.len(),
            first_pair_from(s@, 0, a, b) == first_pair_from(s@, j as int, a, b),
        decreases n - j,
    {
        if s.get_char(j) == a && s.get_char(j + 1) == b {
            return Some(j);
        }
        j += 1;
    }
    None
}

/// Characters that separate the tokens of a request line.
pub open spec fn is_ws(c: char) -> bool {
    c == ' ' || c == '\t'
}

/// The end of the token starting at `i`: the first whitespace position at or
/// after `i`, or the end of the line.
pub open spec fn token_end(s: Seq<char>, i: int) -> int
    decreases s.len() - i,
{
    if i < 0 || i >= s.len() {
        s.len() as int
    } else if is_ws(s[i]) {
        i
    } else {
        token_end(s, i + 1)
    }
}

pub proof fn lemma_token_end(s: Seq<char>, i: int)
    requires
        0 <= i <= s.len(),
    ensures
        i <= token_end(s, i) <= s.len(),
        forall|k: int| i <= k < token_end(s, i) ==> !is_ws(#[trigger] s[k]),
        token_end(s, i) < s.len() ==> is_ws(s[token_end(s, i)]),
        i < s.len() && !is_ws(s[i]) ==> token_end(s, i) > i,
    decreases s.len() - i,
{
    if i < s.len() && !is_ws(s[i]) {
        lemma_token_end(s, i + 1);
    }
}

/// The whitespace-separated tokens of the line, from position `i` on.
pub open spec fn tokens_from(s: Seq<char>, i: int) -> Seq<Seq<char>>
    decreases s.len() - i,
    via tokens_from_dec
{
    if i < 0 || i >= s.len() {
        Seq::<Seq<char>>::empty()
    } else if is_ws(s[i]) {
        tokens_from(s, i + 1)
    } else {
        seq![s.subrange(i, token_end(s, i))] + tokens_from(s, token_end(s, i))
    }
}

#[via_fn]
proof fn tokens_from_dec(s: Seq<char>, i: int) {
    if 0 <= i < s.len() && !is_ws(s[i]) {
        lemma_token_end(s, i);
    }
}

/// Cuts a line into its whitespace-separated tokens.
pub fn tokenize(line: &str) -> (r: Vec<String>)
    ensures
        r.deep_view() == tokens_from(line@, 0),
{
    let n = line.unicode_len();
    let mut r: Vec<String> = Vec::new();
    let mut i: usize = 0;
    while i < n
        invariant
            0 <= i <= n,
            n == line@.len(),
            tokens_from(line@, 0) == r.deep_view() + tokens_from(line@, i as int),
        decreases n - i,
    {
        let c = line.get_char(i);
        if c == ' ' || c == '\t' {
            i += 1;
        } else {
            let ghost start = i as int;
            let mut j = i;
            while j < n && line.get_char(j) != ' ' && line.get_char(j) != '\t'
                invariant
                    0 <= start <= j <= n,
                    n == line@.len(),
                    token_end(line@, start) == token_end(line@, j as int),
                decreases n - j,
            {
                j += 1;
            }
            proof {
                assert(token_end(line@, start) == j as int);
            }
            let t = line.substring_char(i, j);
            let ghost pre = r.deep_view();
            r.push(String::from_str(t));
            proof {
                assert(t@ == line@.subrange(start, token_end(line@, start)));
                assert(r.deep_view() =~~= pre.push(t@));
                assert(r.deep_view() + tokens_from(line@, j as int) =~~= pre + (seq![t@]
                    + tokens_from(line@, j as int)));
            }
            i = j;
        }
    }
    proof {
        assert(tokens_from(line@, i as int) =~= Seq::<Seq<char>>::empty());
        assert(r.deep_view() =~= r.deep_view() + tokens_from(line@, i as int));
    }
    r
}

/// Whether two byte vectors hold the same bytes.
pub fn bytes_eq(x: &Vec<u8>, y: &Vec<u8>) -> (r: bool)
    ensures
        r == (x@ == y@),
{
    if x.len() != y.len() {
        return false;
    }
    let mut i: usize = 0;
    while i < x.len()
        invariant
            0 <= i <= x@.len(),
            x@.len() == y@.len(),
            forall|j: int| 0 <= j < i ==> x@[j] == y@[j],
        decreases x@.len() - i,
    {
        if x[i] != y[i] {
            return false;
        }
        i += 1;
    }
    proof {
        assert(x@ =~= y@);
    }
    true
}

/// Copies the bytes from `start` to the end.
pub fn tail_bytes(v: &Vec<u8>, start: usize) -> (r: Vec<u8>)
    requires
        start <= v@.len(),
    ensures
        r@ == v@.skip(start as int),
{
    let mut r: Vec<u8> = Vec::new();
    let mut i = start;
    while i < v.len()
        invariant
            start <= i <= v@.len(),
            r@ == v@.subrange(start as int, i as int),
        decreases v@.len() - i,
    {
        r.push(v[i]);
        proof {
            assert(r@ =~= v@.subrange(start as int, i + 1));
        }
        i += 1;
    }
    proof {
        assert(r@ =~= v@.skip(start as int));
    }
    r
}

/// Copies the bytes from `start` up to `end`.
pub fn range_bytes(v: &Vec<u8>, start: usize, end: usize) -> (r: Vec<u8>)
    requires
        start <= end <= v@.len(),
    ensures
        r@ == v@.subrange(start as int, end as int),
{
    let mut r: Vec<u8> = Vec::new();
    let mut i = start;
    while i < end
        invariant
            start <= i <= end <= v@.len(),
            r@ == v@.subrange(start as int, i as int),
        decreases end - i,
    {
        r.push(v[i]);
        proof {
            assert(r@ =~= v@.subrange(start as int, i + 1));
        }
        i += 1;
    }
    r
}

} // verus!

//! ASCII text on the wire: the correspondence between character sequences
//! and the bytes that carry them, restricted to the ASCII range.
use vstd::prelude::*;

use vstd::string::StrSliceExecFns;

verus! {

/// Every byte of the sequence is in the ASCII range.
pub open spec fn ascii_bytes(s: Seq<u8>) -> bool {
    forall|i: int| 0 <= i < s.len() ==> s[i] < 128
}

/// Every character of the sequence is in the ASCII range.
pub open spec fn ascii_chars(s: Seq<char>) -> bool {
    forall|i: int| 0 <= i < s.len() ==> '\0' <= #[trigger] s[i] <= '\u{7f}'
}

/// The characters denoted by a sequence of ASCII bytes.
pub open spec fn chars_of(s: Seq<u8>) -> Seq<char> {
    Seq::new(s.len(), |i: int| s[i] as char)
}

/// The bytes that carry a sequence of ASCII characters on the wire.
pub open spec fn bytes_of(s: Seq<char>) -> Seq<u8> {
    Seq::new(s.len(), |i: int| s[i] as u8)
}

pub proof fn lemma_chars_of_bytes_of(s: Seq<char>)
    requires
        ascii_chars(s),
    ensures
        chars_of(bytes_of(s)) == s,
        ascii_bytes(bytes_of(s)),
{
    assert(chars_of(bytes_of(s)) =~= s);
}

/// Whether the text begins with the given prefix.
pub fn str_starts_with(s: &str, prefix: &str) -> (r: bool)
    ensures
        r == (s@.len() >= prefix@.len() && s@.take(prefix@.len() as int) == prefix@),
{
    let n = prefix.unicode_len();
    let sn = s.unicode_len();
    if sn < n {
        return false;
    }
    let mut i: usize = 0;
    while i < n
        invariant
            0 <= i <= n,
            n == prefix@.len(),
            sn == s@.len(),
            n <= sn,
            forall|j: int| 0 <= j < i ==> s@[j] == prefix@[j],
        decreases n - i,
    {
        if s.get_char(i) != prefix.get_char(i) {
            proof {
                assert(s@.take(n as int)[i as int] != prefix@[i as int]);
            }
            return false;
        }
        i += 1;
    }
    proof {
        assert(s@.take(n as int) =~= prefix@);
    }
    true
}

/// Relies on String::from_utf8: it accepts exactly the valid UTF-8 byte
/// sequences, and the text it returns encodes back to the given bytes.
#[verifier::external_body]
pub fn utf8_to_string(v: &Vec<u8>) -> (r: Option<String>)
    ensures
        match r {
            Some(s) => v@ == vstd::utf8::encode_utf8(s@),
            None => !vstd::utf8::valid_utf8(v@),
        },
{
    String::from_utf8(v.clone()).ok()
}

/// Relies on String::from_utf8: bytes in the ASCII range are valid UTF-8 and
/// decode to the characters with the same code points.
#[verifier::external_body]
pub fn ascii_to_string(v: &Vec<u8>) -> (r: String)
    requires
        ascii_bytes(v@),
    ensures
        r@ == chars_of(v@),
        ascii_chars(r@),
{
    String::from_utf8(v.clone()).unwrap()
}

/// The bytes of an ASCII string, as a fresh vector.
pub fn string_bytes(s: &str) -> (r: Vec<u8>)
    requires
        ascii_chars(s@),
    ensures
        r@ == bytes_of(s@),
        ascii_bytes(r@),
{
    proof {
        vstd::string::is_ascii_spec_bytes(s);
    }
    let r = s.as_bytes_vec();
    proof {
        assert(r@ =~= bytes_of(s@));
    }
    r
}

} // verus!

//! Decimal text for the sizes that travel in `Content-Length` headers and in
//! socket addresses: rendering a number and reading one back.
use vstd::prelude::*;

use crate::ascii::ascii_chars;
use crate::ascii::ascii_to_string;
use crate::ascii::bytes_of;

verus! {

/// The character for one decimal digit.
pub open spec fn digit_char(d: nat) -> char {
    ((d + 48) as u8) as char
}

/// The decimal rendering of a number, most significant digit first, with no
/// leading zeros (a single `'0'` for zero).
pub open spec fn dec_rep(n: nat) -> Seq<char>
    decreases n,
{
    if n < 10 {
        seq![digit_char(n)]
    } else {
        dec_rep(n / 10).push(digit_char(n % 10))
    }
}

/// Every character of the sequence is a decimal digit.
pub open spec fn all_digits(s: Seq<char>) -> bool {
    forall|i: int| 0 <= i < s.len() ==> '0' <= #[trigger] s[i] <= '9'
}

/// The number a digit sequence denotes, read most significant digit first.
pub open spec fn dec_value(s: Seq<char>) -> nat
    decreases s.len(),
{
    if s.len() == 0 {
        0
    } else {
        dec_value(s.drop_last()) * 10 + ((s.last() as nat - 48) as nat)
    }
}

pub proof fn lemma_dec_rep_digits(n: nat)
    ensures
        all_digits(dec_rep(n)),
        ascii_chars(dec_rep(n)),
        dec_rep(n).len() >= 1,
    decreases n,
{
    if n >= 10 {
        lemma_dec_rep_digits(n / 10);
    }
}

/// Rendering a number and reading the digits back yields the number.
pub proof fn lemma_dec_value_of_rep(n: nat)
    ensures
        dec_value(dec_rep(n)) == n,
    decreases n,
{
    if n < 10 {
        assert(dec_rep(n) =~= seq![digit_char(n)]);
        assert(dec_rep(n).drop_last() =~= Seq::<char>::empty());
        assert(dec_rep(n).last() == digit_char(n));
        assert(digit_char(n) as nat == n + 48);
        assert(dec_value(dec_rep(n)) == dec_value(dec_rep(n).drop_last()) * 10 + ((dec_rep(
            n,
        ).last() as nat - 48) as nat));
        assert(dec_value(dec_rep(n)) == n);
    } else {
        lemma_dec_value_of_rep(n / 10);
        assert(dec_rep(n).drop_last() =~= dec_rep(n / 10));
        assert(digit_char(n % 10) as nat == n % 10 + 48);
        assert(dec_value(dec_rep(n)) == (n / 10) * 10 + n % 10);
        assert((n / 10) * 10 + n % 10 == n) by {
            vstd::arithmetic::div_mod::lemma_fundamental_div_mod(n as int, 10);
        }
    }
}

/// A digit prefix never denotes more than the whole digit sequence.
pub proof fn lemma_dec_value_take_le(s: Seq<char>, i: int)
    requires
        0 <= i <= s.len(),
    ensures
        dec_value(s.take(i)) <= dec_value(s),
    decreases s.len() - i,
{
    if i < s.len() {
        assert(s.take(i + 1).drop_last() =~= s.take(i));
        assert(s.take(i + 1).last() == s[i]);
        assert(dec_value(s.take(i)) <= dec_value(s.take(i + 1)));
        lemma_dec_value_take_le(s, i + 1);
    } else {
        assert(s.take(i) =~= s);
    }
}

fn push_dec_digits(n: usize, out: &mut Vec<u8>)
    ensures
        final(out)@ == old(out)@ + bytes_of(dec_rep(n as nat)),
    decreases n,
{
    proof {
        lemma_dec_rep_digits(n as nat);
    }
    if n < 10 {
        out.push(n as u8 + 48);
        proof {
            assert(final(out)@ =~= old(out)@ + bytes_of(dec_rep(n as nat)));
        }
    } else {
        push_dec_digits(n / 10, out);
        out.push((n % 10) as u8 + 48);
        proof {
            assert(final(out)@ =~= old(out)@ + bytes_of(dec_rep(n as nat)));
        }
    }
}

/// The decimal text of a number, as written into header values.
pub fn dec_string(n: usize) -> (r: String)
    ensures
        r@ == dec_rep(n as nat),
        ascii_chars(r@),
{
    let mut v: Vec<u8> = Vec::new();
    push_dec_digits(n, &mut v);
    proof {
        lemma_dec_rep_digits(n as nat);
        crate::ascii::lemma_chars_of_bytes_of(dec_rep(n as nat));
        assert(v@ =~= bytes_of(dec_rep(n as nat)));
    }
    ascii_to_string(&v)
}

/// Reads a decimal number from text. Returns the value exactly when the text
/// is a non-empty run of digits whose value fits in `usize`.
pub fn dec_parse(s: &str) -> (r: Option<usize>)
    ensures
        match r {
            Some(v) => s@.len() > 0 && all_digits(s@) && dec_value(s@) == v as nat,
            None => s@.len() == 0 || !all_digits(s@) || dec_value(s@) > usize::MAX,
        },
{
    if !s.is_ascii() {
        // A non-ASCII character is not a digit.
        proof {
            let ghost sv = s@;
            assert(!all_digits(sv)) by {
                if all_digits(sv) {
                    assert(forall|i: int|
                        0 <= i < sv.len() ==> '\0' <= #[trigger] sv[i] <= '\u{7f}');
                }
            }
        }
        return None;
    }
    let b = crate::ascii::string_bytes(s);
    if b.len() == 0 {
        return None;
    }
    let mut i: usize = 0;
    let mut acc: usize = 0;
    while i < b.len()
        invariant
            0 <= i <= b@.len(),
            ascii_chars(s@),
            b@ == bytes_of(s@),
            b@.len() == s@.len(),
            all_digits(s@.take(i as int)),
            acc as nat == dec_value(s@.take(i as int)),
        decreases b@.len() - i,
    {
        let d = b[i];
        proof {
            assert(s@[i as int] as u8 == d);
            assert(s@[i as int] <= '\u{7f}');
            assert(s@[i as int] as int == d as int);
        }
        if d < 48 || d > 57 {
            proof {
                assert(!('0' <= s@[i as int] <= '9'));
            }
            return None;
        }
        proof {
            assert('0' <= s@[i as int] <= '9');
        }
        let acc10 = match acc.checked_mul(10) {
            Some(x) => x,
            None => {
                proof {
                    overflow_means_too_big(s@, i as int);
                }
                return None;
            },
        };
        let acc2 = match acc10.checked_add((d - 48) as usize) {
            Some(x) => x,
            None => {
                proof {
                    overflow_means_too_big(s@, i as int);
                }
                return None;
            },
        };
        proof {
            assert(s@.take(i + 1).drop_last() =~= s@.take(i as int));
            assert(s@.take(i + 1).last() == s@[i as int]);
            assert(s@[i as int] as u8 == d);
        }
        acc = acc2;
        i += 1;
    }
    proof {
        assert(s@.take(i as int) =~= s@);
    }
    Some(acc)
}

/// When one more digit pushes the accumulated value past `usize::MAX`, the
/// whole digit sequence denotes a value past `usize::MAX` too.
proof fn overflow_means_too_big(s: Seq<char>, i: int)
    requires
        0 <= i < s.len(),
        '0' <= s[i] <= '9',
        dec_value(s.take(i)) * 10 + (s[i] as nat - 48) > usize::MAX,
    ensures
        dec_value(s) > usize::MAX,
{
    assert(s.take(i + 1).drop_last() =~= s.take(i));
    assert(s.take(i + 1).last() == s[i]);
    assert(dec_value(s.take(i + 1)) > usize::MAX);
    lemma_dec_value_take_le(s, i + 1);
}

} // verus!

//! Bijective base-62 codes for counter values.
//!
//! The digit alphabet is that of `base62num`: `A`-`Z` are the digits 0 to 25,
//! `a`-`z` the digits 26 to 51 and `0`-`9` the digits 52 to 61. The value 1 is
//! therefore written `B`, and the value 0 is written `A`.
use vstd::prelude::*;

use crate::error::LinkError;

verus! {

/// Whether `c` is one of the 62 symbols of the alphabet.
pub open spec fn is_digit_char(c: char) -> bool {
    ('A' <= c && c <= 'Z') || ('a' <= c && c <= 'z') || ('0' <= c && c <= '9')
}

/// The digit that the symbol `c` stands for.
pub open spec fn digit_value(c: char) -> nat {
    if 'A' <= c && c <= 'Z' {
        (c as int - 'A' as int) as nat
    } else if 'a' <= c && c <= 'z' {
        (c as int - 'a' as int + 26) as nat
    } else {
        (c as int - '0' as int + 52) as nat
    }
}

/// The symbol for the digit `d < 62`.
pub open spec fn digit_char(d: nat) -> char {
    if d < 26 {
        ((d + 65) as u8) as char
    } else if d < 52 {
        ((d - 26 + 97) as u8) as char
    } else {
        ((d - 52 + 48) as u8) as char
    }
}

/// Whether every symbol of `s` belongs to the alphabet.
pub open spec fn all_digits(s: Seq<char>) -> bool {
    forall|i: int| 0 <= i < s.len() ==> is_digit_char(#[trigger] s[i])
}

/// The value of the digit string `s`, most significant digit first; the empty
/// string has value 0.
pub open spec fn value_of(s: Seq<char>) -> nat
    decreases s.len(),
{
    if s.len() == 0 {
        0
    } else {
        value_of(s.drop_last()) * 62 + digit_value(s.last())
    }
}

/// The minimal digit string of `n`, most significant digit first: empty for 0.
pub open spec fn digits_of(n: nat) -> Seq<char>
    decreases n,
{
    if n == 0 {
        Seq::empty()
    } else {
        digits_of(n / 62).push(digit_char(n % 62))
    }
}

/// The code of the value `n`: its minimal digit string, and the single symbol
/// for the digit 0 when `n` is 0.
pub open spec fn code_of(n: nat) -> Seq<char> {
    if n == 0 {
        seq![digit_char(0)]
    } else {
        digits_of(n)
    }
}

/// The value that `s` decodes to, where every symbol is in the alphabet and the
/// value fits in a `usize`.
pub open spec fn decoded(s: Seq<char>) -> Option<nat> {
    if all_digits(s) && value_of(s) <= usize::MAX {
        Some(value_of(s))
    } else {
        None
    }
}

/// A code as the encoder writes it: at least one symbol, all in the alphabet,
/// and no leading zero symbol unless the code is that symbol alone.
pub open spec fn is_canonical(s: Seq<char>) -> bool {
    &&& all_digits(s)
    &&& s.len() > 0
    &&& (s.len() == 1 || s[0] != digit_char(0))
}

/// The error of `base62num::decode`, carried through without looking inside.
#[verifier::external_type_specification]
#[verifier::external_body]
pub struct ExBase62Error(base62num::Base62Error);

/// Relies on `base62num::encode`: the digits of `n` in the alphabet above, most
/// significant first, with no leading zero digit (empty for 0).
#[verifier::external_body]
fn base62_encode(n: usize) -> (r: String)
    ensures
        r@ == digits_of(n as nat),
{
    base62num::encode(n)
}

/// Relies on `base62num::decode`: it folds the symbols left to right into a
/// `usize`, and fails on a symbol outside the alphabet or on overflow.
#[verifier::external_body]
fn base62_decode(s: &str) -> (r: Result<usize, base62num::Base62Error>)
    ensures
        r is Ok <==> (all_digits(s@) && value_of(s@) <= usize::MAX),
        r is Ok ==> r->Ok_0 as nat == value_of(s@),
{
    base62num::decode(s)
}

/// Encodes `n` as its code. `base62num` writes 0 as the empty string; here it
/// is the single symbol `A`, so that every value has a non-empty code.
pub fn encode(n: usize) -> (r: String)
    ensures
        r@ == code_of(n as nat),
{
    if n == 0 {
        let r = "A".to_owned();
        proof {
            reveal_strlit("A");
            assert(r@ =~= code_of(0));
        }
        r
    } else {
        base62_encode(n)
    }
}

/// Decodes the code `s` back into its value.
pub fn decode(s: &str) -> (r: Result<usize, LinkError>)
    ensures
        match r {
            Ok(v) => decoded(s@) == Some(v as nat),
            Err(e) => decoded(s@) is None && e == LinkError::InvalidCode,
        },
{
    match base62_decode(s) {
        Ok(v) => Ok(v),
        Err(_) => Err(LinkError::InvalidCode),
    }
}

proof fn lemma_digit_round_trip(d: nat)
    requires
        d < 62,
    ensures
        is_digit_char(digit_char(d)),
        digit_value(digit_char(d)) == d,
{
}

proof fn lemma_digits_value(n: nat)
    ensures
        all_digits(digits_of(n)),
        value_of(digits_of(n)) == n,
    decreases n,
{
    if n > 0 {
        lemma_digits_value(n / 62);
        lemma_digit_round_trip(n % 62);
        let s = digits_of(n);
        assert(s.drop_last() =~= digits_of(n / 62));
        assert(all_digits(s)) by {
            assert forall|i: int| 0 <= i < s.len() implies is_digit_char(#[trigger] s[i]) by {
                if i < s.len() - 1 {
                    assert(s[i] == digits_of(n / 62)[i]);
                }
            }
        }
    }
}

/// Decoding the code of any `usize` gives that value back.
pub proof fn lemma_decode_encode(n: usize)
    ensures
        decoded(code_of(n as nat)) == Some(n as nat),
{
    if n == 0 {
        lemma_digit_round_trip(0);
        let s = code_of(0);
        assert(s.drop_last() =~= Seq::<char>::empty());
        assert(value_of(Seq::<char>::empty()) == 0);
        assert(s.last() == digit_char(0));
        assert(value_of(s) == 0);
        assert(all_digits(s));
    } else {
        lemma_digits_value(n as nat);
    }
}

proof fn lemma_char_round_trip(c: char)
    requires
        is_digit_char(c),
    ensures
        digit_value(c) < 62,
        digit_char(digit_value(c)) == c,
{
}

proof fn lemma_all_digits_prefix(s: Seq<char>)
    requires
        all_digits(s),
        s.len() > 0,
    ensures
        all_digits(s.drop_last()),
        is_digit_char(s.last()),
{
    assert forall|i: int| 0 <= i < s.len() - 1 implies is_digit_char(#[trigger] s.drop_last()[i]) by {
        assert(s.drop_last()[i] == s[i]);
    }
}

proof fn lemma_value_positive(t: Seq<char>)
    requires
        all_digits(t),
        t.len() > 0,
        t[0] != digit_char(0),
    ensures
        value_of(t) > 0,
    decreases t.len(),
{
    lemma_all_digits_prefix(t);
    if t.len() == 1 {
        lemma_char_round_trip(t[0]);
        assert(t.drop_last() =~= Seq::<char>::empty());
        assert(value_of(Seq::<char>::empty()) == 0);
    } else {
        let u = t.drop_last();
        assert(u[0] == t[0]);
        lemma_value_positive(u);
    }
}

/// Encoding the value of a canonical code gives that code back.
pub proof fn lemma_encode_decode(s: Seq<char>)
    requires
        is_canonical(s),
    ensures
        code_of(value_of(s)) == s,
    decreases s.len(),
{
    lemma_all_digits_prefix(s);
    let c = s.last();
    let t = s.drop_last();
    lemma_char_round_trip(c);
    let d = digit_value(c);
    if s.len() == 1 {
        assert(t =~= Seq::<char>::empty());
        assert(value_of(t) == 0);
        assert(value_of(s) == d);
        if d == 0 {
            assert(code_of(0) =~= s);
        } else {
            assert(digits_of(0) =~= Seq::<char>::empty());
            assert(digits_of(d) =~= s);
        }
    } else {
        assert(t[0] == s[0]);
        lemma_value_positive(t);
        lemma_encode_decode(t);
        let v = value_of(s);
        assert(v == value_of(t) * 62 + d);
        assert(v / 62 == value_of(t) && v % 62 == d);
        assert(digits_of(v) == digits_of(value_of(t)).push(digit_char(d)));
        assert(digits_of(v) =~= s);
    }
}

/// Two values with the same code are equal: distinct values get distinct codes.
pub proof fn lemma_encode_injective(a: usize, b: usize)
    ensures
        code_of(a as nat) == code_of(b as nat) <==> a == b,
{
    lemma_decode_encode(a);
    lemma_decode_encode(b);
}

} // verus!

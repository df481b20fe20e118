//! Percent-encoding of object keys and tag strings: a "strict" set that
//! escapes every byte except ASCII alphanumerics, `-`, `.`, `_` and `~`,
//! optionally leaving the path delimiter `/` unescaped so multi-segment keys
//! stay structurally intact. Encoding is purely byte-level.

use vstd::prelude::*;

use crate::path::Path;
use vstd::string::StringSliceAdditionalSpecFns;

verus! {

/// Bytes that the strict set leaves unescaped: ASCII alphanumerics, `-`,
/// `.`, `_`, `~`, and — when `keep_slash` holds — the delimiter `/`.
pub open spec fn is_unreserved(b: u8, keep_slash: bool) -> bool {
    ||| 65 <= b <= 90
    ||| 97 <= b <= 122
    ||| 48 <= b <= 57
    ||| b == 45
    ||| b == 46
    ||| b == 95
    ||| b == 126
    ||| (keep_slash && b == 47)
}

/// Uppercase hexadecimal digit for `n` (`n < 16`).
pub open spec fn hex_digit(n: u8) -> u8 {
    if n < 10 {
        (48 + n) as u8
    } else {
        (55 + n) as u8
    }
}

/// The encoding of one byte: itself when unreserved, else `%XX`.
pub open spec fn encode_byte_spec(b: u8, keep_slash: bool) -> Seq<u8> {
    if is_unreserved(b, keep_slash) {
        seq![b]
    } else {
        seq![37u8, hex_digit(b / 16), hex_digit(b % 16)]
    }
}

/// Percent-encoding of a byte string under the strict set.
pub open spec fn spec_percent_encode(s: Seq<u8>, keep_slash: bool) -> Seq<u8>
    decreases s.len(),
{
    if s.len() == 0 {
        Seq::empty()
    } else {
        encode_byte_spec(s[0], keep_slash) + spec_percent_encode(s.skip(1), keep_slash)
    }
}

/// Relies on percent_encoding::percent_encode_byte: returns the three-byte
/// `%XX` escape of `b`, with uppercase hexadecimal digits.
#[verifier::external_body]
fn escape_byte(b: u8) -> (r: &'static str)
    ensures
        r.spec_bytes() == seq![37u8, hex_digit(b / 16), hex_digit(b % 16)],
{
    percent_encoding::percent_encode_byte(b)
}

/// Encoding distributes over appending one byte.
pub proof fn lemma_encode_push(s: Seq<u8>, b: u8, keep_slash: bool)
    ensures
        spec_percent_encode(s.push(b), keep_slash) == spec_percent_encode(s, keep_slash)
            + encode_byte_spec(b, keep_slash),
    decreases s.len(),
{
    if s.len() == 0 {
        assert(s.push(b).len() == 1);
        assert(s.push(b)[0] == b);
        assert(s.push(b).skip(1) =~= Seq::<u8>::empty());
        assert(spec_percent_encode(s.push(b).skip(1), keep_slash) == Seq::<u8>::empty());
        assert(spec_percent_encode(s.push(b), keep_slash) == encode_byte_spec(b, keep_slash)
            + Seq::<u8>::empty());
        assert(encode_byte_spec(b, keep_slash) + Seq::<u8>::empty() =~= encode_byte_spec(
            b,
            keep_slash,
        ));
        assert(spec_percent_encode(s, keep_slash) == Seq::<u8>::empty());
        assert(Seq::<u8>::empty() + encode_byte_spec(b, keep_slash) =~= encode_byte_spec(
            b,
            keep_slash,
        ));
    } else {
        assert(s.push(b).skip(1) =~= s.skip(1).push(b));
        assert(s.push(b)[0] == s[0]);
        lemma_encode_push(s.skip(1), b, keep_slash);
        assert(encode_byte_spec(s[0], keep_slash) + (spec_percent_encode(s.skip(1), keep_slash)
            + encode_byte_spec(b, keep_slash)) =~= (encode_byte_spec(s[0], keep_slash)
            + spec_percent_encode(s.skip(1), keep_slash)) + encode_byte_spec(b, keep_slash));
    }
}

/// Percent-encodes `s` under the strict set; `keep_slash` leaves the path
/// delimiter unescaped.
pub fn percent_encode(s: &Vec<u8>, keep_slash: bool) -> (r: Vec<u8>)
    ensures
        r@ == spec_percent_encode(s@, keep_slash),
{
    let mut out: Vec<u8> = Vec::new();
    let mut i: usize = 0;
    proof {
        assert(s@.take(0) =~= Seq::<u8>::empty());
    }
    while i < s.len()
        invariant
            i <= s@.len(),
            out@ == spec_percent_encode(s@.take(i as int), keep_slash),
        decreases s@.len() - i,
    {
        let b = s[i];
        let unreserved = (65 <= b && b <= 90) || (97 <= b && b <= 122) || (48 <= b && b <= 57)
            || b == 45 || b == 46 || b == 95 || b == 126 || (keep_slash && b == 47);
        proof {
            assert(s@.take(i + 1) =~= s@.take(i as int).push(s@[i as int]));
            lemma_encode_push(s@.take(i as int), s@[i as int], keep_slash);
        }
        if unreserved {
            out.push(b);
            proof {
                assert(out@ =~= spec_percent_encode(s@.take(i as int), keep_slash)
                    + encode_byte_spec(s@[i as int], keep_slash));
            }
        } else {
            let esc = escape_byte(b);
            out.extend_from_slice(esc.as_bytes());
            proof {
                assert(out@ =~= spec_percent_encode(s@.take(i as int), keep_slash)
                    + encode_byte_spec(s@[i as int], keep_slash));
            }
        }
        i = i + 1;
    }
    proof {
        assert(s@.take(i as int) =~= s@);
    }
    out
}

/// Percent-encodes an object key for use as the path segment of a request
/// URL, leaving the delimiter unescaped.
pub fn encode_path(path: &Path) -> (r: Vec<u8>)
    ensures
        r@ == spec_percent_encode(path@, true),
{
    percent_encode(path.as_bytes(), true)
}

/// Value of an ASCII hexadecimal digit, or -1 for any other byte.
pub open spec fn hex_val(b: u8) -> int {
    if 48 <= b <= 57 {
        b - 48
    } else if 65 <= b <= 70 {
        b - 55
    } else if 97 <= b <= 102 {
        b - 87
    } else {
        -1
    }
}

/// Percent-decoding: inverse of the strict encoding. `%` must be followed by
/// two hexadecimal digits; every other byte stands for itself.
pub open spec fn spec_percent_decode(s: Seq<u8>) -> Option<Seq<u8>>
    decreases s.len(),
{
    if s.len() == 0 {
        Some(Seq::empty())
    } else if s[0] == 37 {
        if s.len() >= 3 && hex_val(s[1]) >= 0 && hex_val(s[2]) >= 0 {
            match spec_percent_decode(s.skip(3)) {
                Some(t) => Some(seq![(hex_val(s[1]) * 16 + hex_val(s[2])) as u8] + t),
                None => None,
            }
        } else {
            None
        }
    } else {
        match spec_percent_decode(s.skip(1)) {
            Some(t) => Some(seq![s[0]] + t),
            None => None,
        }
    }
}

fn hex_val_exec(b: u8) -> (r: i16)
    ensures
        r as int == hex_val(b),
{
    if 48 <= b && b <= 57 {
        (b - 48) as i16
    } else if 65 <= b && b <= 70 {
        (b - 55) as i16
    } else if 97 <= b && b <= 102 {
        (b - 87) as i16
    } else {
        -1
    }
}

fn decode_from(s: &Vec<u8>, i: usize) -> (r: Option<Vec<u8>>)
    requires
        i <= s@.len(),
    ensures
        r is None <==> spec_percent_decode(s@.skip(i as int)) is None,
        r matches Some(v) ==> spec_percent_decode(s@.skip(i as int)) matches Some(t) && v@ == t,
    decreases s@.len() - i,
{
    let n = s.len();
    let ghost suf = s@.skip(i as int);
    if i == n {
        proof {
            assert(suf =~= Seq::<u8>::empty());
        }
        return Some(Vec::new());
    }
    proof {
        assert(suf[0] == s@[i as int]);
    }
    let b = s[i];
    if b == 37 {
        if n - i < 3 {
            return None;
        }
        let h1 = hex_val_exec(s[i + 1]);
        let h2 = hex_val_exec(s[i + 2]);
        proof {
            assert(suf[1] == s@[i as int + 1]);
            assert(suf[2] == s@[i as int + 2]);
        }
        if h1 < 0 || h2 < 0 {
            return None;
        }
        proof {
            assert(suf.skip(3) =~= s@.skip(i as int + 3));
        }
        match decode_from(s, i + 3) {
            None => None,
            Some(mut v) => {
                let byte = (h1 * 16 + h2) as u8;
                v.insert(0, byte);
                proof {
                    let t = spec_percent_decode(suf.skip(3))->Some_0;
                    assert(v@ =~= seq![(hex_val(suf[1]) * 16 + hex_val(suf[2])) as u8] + t);
                }
                Some(v)
            },
        }
    } else {
        proof {
            assert(suf.skip(1) =~= s@.skip(i as int + 1));
        }
        match decode_from(s, i + 1) {
            None => None,
            Some(mut v) => {
                v.insert(0, b);
                proof {
                    let t = spec_percent_decode(suf.skip(1))->Some_0;
                    assert(v@ =~= seq![suf[0]] + t);
                }
                Some(v)
            },
        }
    }
}

/// Percent-decodes `s`; rejects a `%` that is not followed by two
/// hexadecimal digits.
pub fn percent_decode(s: &Vec<u8>) -> (r: Option<Vec<u8>>)
    ensures
        r is None <==> spec_percent_decode(s@) is None,
        r matches Some(v) ==> spec_percent_decode(s@) matches Some(t) && v@ == t,
{
    proof {
        assert(s@.skip(0) =~= s@);
    }
    decode_from(s, 0)
}

/// Encoding a key containing only unreserved bytes (and, with `keep_slash`,
/// delimiters) leaves it unchanged.
pub proof fn lemma_encode_unreserved_identity(s: Seq<u8>, keep_slash: bool)
    requires
        forall|k: int| 0 <= k < s.len() ==> is_unreserved(#[trigger] s[k], keep_slash),
    ensures
        spec_percent_encode(s, keep_slash) == s,
    decreases s.len(),
{
    if s.len() == 0 {
        assert(spec_percent_encode(s, keep_slash) =~= s);
    } else {
        assert forall|k: int| 0 <= k < s.skip(1).len() implies is_unreserved(
            #[trigger] s.skip(1)[k],
            keep_slash,
        ) by {
            assert(s.skip(1)[k] == s[k + 1]);
        }
        lemma_encode_unreserved_identity(s.skip(1), keep_slash);
        assert(spec_percent_encode(s, keep_slash) =~= seq![s[0]] + s.skip(1));
        assert(seq![s[0]] + s.skip(1) =~= s);
    }
}

/// Hexadecimal digits decode back to their value.
proof fn lemma_hex_digit_val(n: u8)
    requires
        n < 16,
    ensures
        hex_val(hex_digit(n)) == n,
{
}

/// Decoding inverts encoding: the percent codec round-trips every key.
pub proof fn lemma_encode_decode_roundtrip(s: Seq<u8>, keep_slash: bool)
    ensures
        spec_percent_decode(spec_percent_encode(s, keep_slash)) == Some(s),
    decreases s.len(),
{
    if s.len() == 0 {
        assert(spec_percent_encode(s, keep_slash) =~= Seq::<u8>::empty());
        assert(Some(Seq::<u8>::empty()) =~= Some(s));
    } else {
        lemma_encode_decode_roundtrip(s.skip(1), keep_slash);
        let e = spec_percent_encode(s, keep_slash);
        let rest = spec_percent_encode(s.skip(1), keep_slash);
        let t = spec_percent_decode(rest)->Some_0;
        assert(t == s.skip(1));
        if is_unreserved(s[0], keep_slash) {
            assert(e =~= seq![s[0]] + rest);
            assert(e[0] == s[0]);
            assert(s[0] != 37);
            assert(e.skip(1) =~= rest);
            assert(spec_percent_decode(e) == Some(seq![s[0]] + t));
            assert(seq![s[0]] + t =~= s);
        } else {
            let b = s[0];
            assert(e =~= seq![37u8, hex_digit(b / 16), hex_digit(b % 16)] + rest);
            assert(e[0] == 37u8);
            assert(e[1] == hex_digit(b / 16));
            assert(e[2] == hex_digit(b % 16));
            lemma_hex_digit_val(b / 16);
            lemma_hex_digit_val(b % 16);
            assert(hex_val(e[1]) == b / 16);
            assert(hex_val(e[2]) == b % 16);
            assert(e.len() >= 3);
            assert(e.skip(3) =~= rest);
            assert(hex_val(e[1]) * 16 + hex_val(e[2]) == b);
            assert(spec_percent_decode(e) == Some(seq![b] + t));
            assert(seq![b] + t =~= s);
        }
    }
}

} // verus!

//! Small byte-level helpers shared by the codec, the wire schema and the
//! request builders.

use vstd::prelude::*;

verus! {

/// Index of the first occurrence of `b` in `s`, or -1 if `b` does not occur.
pub open spec fn spec_find(s: Seq<u8>, b: u8) -> int
    decreases s.len(),
{
    if s.len() == 0 {
        -1
    } else if s[0] == b {
        0
    } else {
        let r = spec_find(s.skip(1), b);
        if r < 0 {
            -1
        } else {
            r + 1
        }
    }
}

/// `spec_find` returns -1 when `b` is absent, and otherwise the first
/// position holding `b`.
pub proof fn lemma_spec_find(s: Seq<u8>, b: u8)
    ensures
        spec_find(s, b) == -1 ==> forall|k: int| 0 <= k < s.len() ==> s[k] != b,
        spec_find(s, b) != -1 ==> {
            let r = spec_find(s, b);
            &&& 0 <= r < s.len()
            &&& s[r] == b
            &&& forall|k: int| 0 <= k < r ==> s[k] != b
        },
    decreases s.len(),
{
    if s.len() == 0 {
    } else if s[0] == b {
    } else {
        lemma_spec_find(s.skip(1), b);
        let r = spec_find(s.skip(1), b);
        if r >= 0 {
            assert(s[r + 1] == s.skip(1)[r]);
            assert forall|k: int| 0 <= k < r + 1 implies s[k] != b by {
                if k > 0 {
                    assert(s[k] == s.skip(1)[k - 1]);
                }
            }
        } else {
            assert forall|k: int| 0 <= k < s.len() implies s[k] != b by {
                if k > 0 {
                    assert(s[k] == s.skip(1)[k - 1]);
                }
            }
        }
    }
}

/// The first occurrence of `b` in `v` at or after `from`, as an index into `v`.
pub fn find_byte(v: &Vec<u8>, from: usize, b: u8) -> (r: Option<usize>)
    requires
        from <= v@.len(),
    ensures
        r matches Some(j) ==> from <= j < v@.len() && v@[j as int] == b && (forall|k: int|
            from <= k < j ==> v@[k] != b),
        r is None ==> forall|k: int| from <= k < v@.len() ==> v@[k] != b,
{
    let mut i = from;
    while i < v.len()
        invariant
            from <= i <= v@.len(),
            forall|k: int| from <= k < i ==> v@[k] != b,
        decreases v@.len() - i,
    {
        if v[i] == b {
            return Some(i);
        }
        i = i + 1;
    }
    None
}

/// Relates `find_byte`'s answer on a suffix of `v` to `spec_find` on that suffix.
pub proof fn lemma_find_characterises(s: Seq<u8>, b: u8, j: int)
    requires
        0 <= j < s.len(),
        s[j] == b,
        forall|k: int| 0 <= k < j ==> s[k] != b,
    ensures
        spec_find(s, b) == j,
    decreases s.len(),
{
    if j == 0 {
    } else {
        assert(s.skip(1)[j - 1] == s[j]);
        assert forall|k: int| 0 <= k < j - 1 implies s.skip(1)[k] != b by {
            assert(s.skip(1)[k] == s[k + 1]);
        }
        lemma_find_characterises(s.skip(1), b, j - 1);
    }
}

/// Relates the absence of `b` in `s` to `spec_find` returning -1.
pub proof fn lemma_find_absent(s: Seq<u8>, b: u8)
    requires
        forall|k: int| 0 <= k < s.len() ==> s[k] != b,
    ensures
        spec_find(s, b) == -1,
    decreases s.len(),
{
    if s.len() > 0 {
        assert forall|k: int| 0 <= k < s.skip(1).len() implies s.skip(1)[k] != b by {
            assert(s.skip(1)[k] == s[k + 1]);
        }
        lemma_find_absent(s.skip(1), b);
    }
}

/// True when the two byte slices hold the same bytes.
pub fn bytes_eq(a: &[u8], b: &[u8]) -> (r: bool)
    ensures
        r == (a@ == b@),
{
    if a.len() != b.len() {
        assert(a@.len() != b@.len());
        return false;
    }
    let mut i: usize = 0;
    while i < a.len()
        invariant
            i <= a@.len(),
            a@.len() == b@.len(),
            forall|k: int| 0 <= k < i ==> a@[k] == b@[k],
        decreases a@.len() - i,
    {
        if a[i] != b[i] {
            return false;
        }
        i = i + 1;
    }
    assert(a@ =~= b@);
    true
}

/// Decimal rendering of `n`, most significant digit first.
pub open spec fn spec_dec(n: nat) -> Seq<u8>
    decreases n,
{
    if n < 10 {
        seq![(48 + n) as u8]
    } else {
        spec_dec(n / 10).push((48 + n % 10) as u8)
    }
}

/// Renders `n` in decimal.
pub fn dec_bytes(n: usize) -> (r: Vec<u8>)
    ensures
        r@ == spec_dec(n as nat),
    decreases n,
{
    if n < 10 {
        let mut v: Vec<u8> = Vec::new();
        v.push((48 + n) as u8);
        v
    } else {
        let mut v = dec_bytes(n / 10);
        v.push((48 + n % 10) as u8);
        v
    }
}

/// 10 to the power `k`.
pub open spec fn pow10(k: nat) -> nat
    decreases k,
{
    if k == 0 {
        1
    } else {
        10 * pow10((k - 1) as nat)
    }
}

/// Whether every byte of `s` is an ASCII decimal digit.
pub open spec fn all_digits(s: Seq<u8>) -> bool {
    forall|k: int| 0 <= k < s.len() ==> 48 <= #[trigger] s[k] <= 57
}

/// The number denoted by the digit string `s`, most significant digit first.
pub open spec fn digits_val(s: Seq<u8>) -> nat
    decreases s.len(),
{
    if s.len() == 0 {
        0
    } else {
        digits_val(s.drop_last()) * 10 + (s.last() - 48) as nat
    }
}

/// Parses an unsigned decimal number of at most 19 digits.
pub fn parse_number(v: &Vec<u8>, start: usize, end: usize) -> (r: Option<u64>)
    requires
        start <= end <= v@.len(),
    ensures
        r matches Some(n) ==> {
            &&& all_digits(v@.subrange(start as int, end as int))
            &&& 1 <= end - start <= 19
            &&& n == digits_val(v@.subrange(start as int, end as int))
        },
        r is None ==> !all_digits(v@.subrange(start as int, end as int)) || end == start || end
            - start > 19,
{
    if end == start || end - start > 19 {
        return None;
    }
    let mut i = start;
    let mut acc: u64 = 0;
    proof {
        reveal_with_fuel(pow10, 20);
        assert(pow10(19) == 10000000000000000000);
    }
    while i < end
        invariant
            start <= i <= end <= v@.len(),
            end - start <= 19,
            all_digits(v@.subrange(start as int, i as int)),
            acc == digits_val(v@.subrange(start as int, i as int)),
            acc < pow10((i - start) as nat),
            pow10(19) == 10000000000000000000,
        decreases end - i,
    {
        let b = v[i];
        if b < 48 || b > 57 {
            proof {
                assert(v@.subrange(start as int, end as int)[i - start] == v@[i as int]);
            }
            return None;
        }
        proof {
            let pre = v@.subrange(start as int, i as int);
            let ext = v@.subrange(start as int, i + 1);
            assert(ext.drop_last() =~= pre);
            assert(ext.last() == v@[i as int]);
            lemma_pow10_monotone(((i - start) + 1) as nat, 19);
        }
        acc = acc * 10 + (b - 48) as u64;
        i = i + 1;
    }
    proof {
        assert(v@.subrange(start as int, end as int) =~= v@.subrange(start as int, i as int));
    }
    Some(acc)
}

/// `pow10` is monotone in its exponent.
pub proof fn lemma_pow10_monotone(a: nat, b: nat)
    requires
        a <= b,
    ensures
        pow10(a) <= pow10(b),
    decreases b,
{
    if a < b {
        lemma_pow10_monotone(a, (b - 1) as nat);
        assert(pow10(b) == 10 * pow10((b - 1) as nat));
    }
}

} // verus!

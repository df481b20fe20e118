//! Object keys. A `Path` is a validated key: a `/`-separated list of
//! segments, none empty and none equal to `.` or `..`, with no leading or
//! trailing delimiter. Validation is purely byte-level; no normalization of
//! `.`/`..` segments is performed — such keys are rejected instead.

use vstd::prelude::*;

use crate::error::Error;
use crate::util::{bytes_eq, find_byte, lemma_find_absent, lemma_find_characterises, lemma_spec_find, spec_find};
use vstd::string::StringSliceAdditionalSpecFns;

verus! {

/// A single segment is non-empty and neither `.` nor `..`.
pub open spec fn seg_ok(s: Seq<u8>) -> bool {
    &&& s.len() > 0
    &&& s != seq![46u8]
    &&& s != seq![46u8, 46u8]
}

#[via_fn]
proof fn segs_ok_decreases(s: Seq<u8>) {
    lemma_spec_find(s, 47u8);
}

/// `s` is a `/`-separated list of well-formed segments.
pub open spec fn segs_ok(s: Seq<u8>) -> bool
    decreases s.len(),
    via segs_ok_decreases
{
    let i = spec_find(s, 47u8);
    if i < 0 {
        seg_ok(s)
    } else {
        seg_ok(s.take(i)) && segs_ok(s.skip(i + 1))
    }
}

/// A well-formed key: empty, or a `/`-separated list of well-formed segments.
pub open spec fn path_wf(s: Seq<u8>) -> bool {
    s.len() == 0 || segs_ok(s)
}

/// Checks one candidate segment, `v[start..end]`.
fn check_segment(v: &Vec<u8>, start: usize, end: usize) -> (r: bool)
    requires
        start <= end <= v@.len(),
    ensures
        r == seg_ok(v@.subrange(start as int, end as int)),
{
    let ghost s = v@.subrange(start as int, end as int);
    if end == start {
        return false;
    }
    if end - start == 1 && v[start] == 46 {
        proof {
            assert(s =~= seq![46u8]);
        }
        return false;
    }
    if end - start == 2 && v[start] == 46 && v[start + 1] == 46 {
        proof {
            assert(s =~= seq![46u8, 46u8]);
        }
        return false;
    }
    proof {
        if s == seq![46u8] {
            assert(s.len() == 1);
            assert(s[0] == v@[start as int]);
            assert(s[0] == 46u8);
        }
        if s == seq![46u8, 46u8] {
            assert(s.len() == 2);
            assert(s[0] == v@[start as int]);
            assert(s[1] == v@[start as int + 1]);
            assert(s[0] == 46u8 && s[1] == 46u8);
        }
    }
    true
}

/// Checks that `v[from..]` is a `/`-separated list of well-formed segments.
fn check_segments(v: &Vec<u8>, from: usize) -> (r: bool)
    requires
        from <= v@.len(),
    ensures
        r == segs_ok(v@.skip(from as int)),
    decreases v@.len() - from,
{
    let ghost s = v@.skip(from as int);
    match find_byte(v, from, 47) {
        None => {
            proof {
                assert forall|k: int| 0 <= k < s.len() implies s[k] != 47u8 by {
                    assert(s[k] == v@[from + k]);
                }
                lemma_find_absent(s, 47u8);
                assert(s =~= v@.subrange(from as int, v@.len() as int));
            }
            check_segment(v, from, v.len())
        },
        Some(j) => {
            let n = v.len();
            proof {
                assert(j < n);
                assert(s[j - from] == v@[j as int]);
                assert forall|k: int| 0 <= k < j - from implies s[k] != 47u8 by {
                    assert(s[k] == v@[from + k]);
                }
                lemma_find_characterises(s, 47u8, j - from);
                assert(s.take(j - from) =~= v@.subrange(from as int, j as int));
                assert(s.skip(j - from + 1) =~= v@.skip(j + 1));
            }
            if check_segment(v, from, j) {
                check_segments(v, j + 1)
            } else {
                false
            }
        },
    }
}

/// A validated object key.
#[derive(Debug)]
pub struct Path {
    raw: Vec<u8>,
}

impl View for Path {
    type V = Seq<u8>;

    closed spec fn view(&self) -> Seq<u8> {
        self.raw@
    }
}

impl Path {
    /// Every `Path` satisfies the path rules.
    pub closed spec fn wf(&self) -> bool {
        path_wf(self.raw@)
    }

    /// Validates `raw` as a key and wraps it; rejects ill-formed keys.
    pub fn parse_bytes(raw: Vec<u8>) -> (r: Result<Path, Error>)
        ensures
            r matches Ok(p) ==> p@ == raw@ && p.wf() && path_wf(raw@),
            r is Err ==> !path_wf(raw@),
            r matches Err(e) ==> e == (Error::InvalidPath { path: raw }),
    {
        let ok = if raw.len() == 0 {
            true
        } else {
            check_segments(&raw, 0)
        };
        proof {
            assert(raw@.skip(0) =~= raw@);
        }
        if ok {
            Ok(Path { raw })
        } else {
            Err(Error::InvalidPath { path: raw })
        }
    }

    /// Validates the UTF-8 bytes of `s` as a key.
    pub fn parse(s: &str) -> (r: Result<Path, Error>)
        ensures
            r matches Ok(p) ==> p@ == s.spec_bytes() && p.wf() && path_wf(s.spec_bytes()),
            r is Err ==> !path_wf(s.spec_bytes()),
            r matches Err(e) ==> e matches Error::InvalidPath { .. },
    {
        Path::parse_bytes(s.as_bytes_vec())
    }

    /// The key's bytes.
    pub fn as_bytes(&self) -> (r: &Vec<u8>)
        ensures
            r@ == self@,
    {
        &self.raw
    }
}

impl Clone for Path {
    /// Clones the key, preserving its bytes.
    fn clone(&self) -> (r: Self)
        ensures
            r@ == self@,
            r.wf() == self.wf(),
    {
        let mut raw: Vec<u8> = Vec::new();
        let mut i: usize = 0;
        while i < self.raw.len()
            invariant
                i <= self.raw@.len(),
                raw@ == self.raw@.take(i as int),
            decreases self.raw@.len() - i,
        {
            raw.push(self.raw[i]);
            proof {
                assert(raw@ =~= self.raw@.take(i + 1));
            }
            i = i + 1;
        }
        proof {
            assert(raw@ =~= self.raw@);
        }
        Path { raw }
    }
}

impl PartialEq for Path {
    /// Two paths are equal when their bytes are equal.
    fn eq(&self, other: &Path) -> (r: bool) {
        bytes_eq(self.raw.as_slice(), other.raw.as_slice())
    }
}

impl vstd::std_specs::cmp::PartialEqSpecImpl for Path {
    open spec fn obeys_eq_spec() -> bool {
        true
    }

    open spec fn eq_spec(&self, other: &Path) -> bool {
        self@ == other@
    }
}

} // verus!

//! The part ledger: accumulates per-part completion tokens contributed by
//! upload tasks and reconstructs one deterministic, ordered sequence once all
//! parts are accounted for.

use vstd::prelude::*;

use crate::error::Error;

verus! {

/// Completion token and byte length of one successfully uploaded part.
#[derive(Debug)]
pub struct PartId {
    pub content_id: String,
    pub size: usize,
}

/// The ordering rule for recorded parts: entries with equal part size order
/// by ascending submitted index; otherwise by descending size. Parts are
/// expected to be issued in non-increasing size (equal-sized parts with a
/// shorter final part), so this reconstructs submission order even when
/// upload tasks complete out of sequence. That expectation is the caller's
/// to uphold; it is not validated here.
pub open spec fn part_le(a: (usize, PartId), b: (usize, PartId)) -> bool {
    if a.1.size == b.1.size {
        a.0 <= b.0
    } else {
        a.1.size > b.1.size
    }
}

/// The sequence is ordered under the part rule.
pub open spec fn sorted_parts(s: Seq<(usize, PartId)>) -> bool {
    forall|i: int, j: int| 0 <= i < j < s.len() ==> part_le(#[trigger] s[i], #[trigger] s[j])
}

fn part_le_exec(a: &(usize, PartId), b: &(usize, PartId)) -> (r: bool)
    ensures
        r == part_le(*a, *b),
{
    if a.1.size == b.1.size {
        a.0 <= b.0
    } else {
        a.1.size > b.1.size
    }
}

/// Sorts recorded parts: descending size, ties broken by ascending submitted
/// index.
pub fn sort(parts: &mut Vec<(usize, PartId)>) -> (r: ())
    ensures
        sorted_parts(final(parts)@),
        final(parts)@.to_multiset() == old(parts)@.to_multiset(),
        final(parts)@.len() == old(parts)@.len(),
{
    broadcast use vstd::seq_lib::group_to_multiset_ensures;
    broadcast use vstd::multiset::group_multiset_axioms;

    let mut out: Vec<(usize, PartId)> = Vec::new();
    let ghost orig = parts@;
    proof {
        assert(out@.to_multiset().add(parts@.to_multiset()) =~= orig.to_multiset());
    }
    while parts.len() > 0
        invariant
            sorted_parts(out@),
            out@.to_multiset().add(parts@.to_multiset()) == orig.to_multiset(),
            out@.len() + parts@.len() == orig.len(),
            forall|i: int, j: int|
                0 <= i < out@.len() && 0 <= j < parts@.len() ==> part_le(
                    #[trigger] out@[i],
                    #[trigger] parts@[j],
                ),
        decreases parts@.len(),
    {
        // index of a minimal remaining entry under the part rule
        let mut m: usize = 0;
        let mut j: usize = 1;
        while j < parts.len()
            invariant
                m < j <= parts@.len() || (j <= parts@.len() && m == 0),
                m < parts@.len(),
                parts@.len() > 0,
                forall|k: int| 0 <= k < j ==> part_le(parts@[m as int], #[trigger] parts@[k]),
            decreases parts@.len() - j,
        {
            if !part_le_exec(&parts[m], &parts[j]) {
                proof {
                    // the order is total: not a <= b means b <= a
                    assert(part_le(parts@[j as int], parts@[m as int]));
                    assert forall|k: int| 0 <= k < j + 1 implies part_le(
                        parts@[j as int],
                        #[trigger] parts@[k],
                    ) by {
                        if k < j {
                            assert(part_le(parts@[m as int], parts@[k]));
                        }
                    }
                }
                m = j;
            }
            j = j + 1;
        }
        let ghost pold = parts@;
        let x = parts.remove(m);
        let ghost pre = out@;
        out.push(x);
        proof {
            pold.to_multiset_ensures();
            pre.to_multiset_ensures();
            assert(pold.remove(m as int).to_multiset() == pold.to_multiset().remove(
                pold[m as int],
            ));
            assert(pold.contains(pold[m as int]));
            assert(pold.to_multiset().count(pold[m as int]) > 0);
            assert(out@ =~= pre.push(x));
            assert(out@.to_multiset() == pre.to_multiset().insert(x));
            assert(out@.to_multiset().add(parts@.to_multiset()) =~= orig.to_multiset());
            assert forall|i: int, j2: int|
                0 <= i < j2 < out@.len() implies part_le(#[trigger] out@[i], #[trigger] out@[j2]) by {
                if j2 < out@.len() - 1 {
                    assert(part_le(pre[i], pre[j2]));
                }
            }
        }
    }
    proof {
        assert(parts@.to_multiset().len() == 0);
        assert(out@.to_multiset().add(parts@.to_multiset()) =~= out@.to_multiset());
    }
    *parts = out;
}

/// A collection of upload parts and their corresponding submitted indices.
#[derive(Debug)]
pub struct Parts {
    entries: Vec<(usize, PartId)>,
}

impl View for Parts {
    type V = Seq<(usize, PartId)>;

    closed spec fn view(&self) -> Seq<(usize, PartId)> {
        self.entries@
    }
}

impl Default for Parts {
    /// An empty ledger.
    fn default() -> (r: Self)
        ensures
            r@ == Seq::<(usize, PartId)>::empty(),
    {
        Parts { entries: Vec::new() }
    }
}

impl Parts {
    /// An empty ledger.
    pub fn new() -> (r: Self)
        ensures
            r@ == Seq::<(usize, PartId)>::empty(),
    {
        Parts { entries: Vec::new() }
    }

    /// Records the [`PartId`] for a given index.
    ///
    /// Calling this method multiple times with the same `part_idx` results in
    /// multiple entries, each counting toward the total that `finish` checks.
    pub fn put(&mut self, part_idx: usize, id: PartId)
        ensures
            final(self)@ == old(self)@.push((part_idx, id)),
    {
        self.entries.push((part_idx, id));
    }

    /// Produces the final list of [`PartId`] ordered by the part rule, and
    /// clears the ledger.
    ///
    /// `expected` is the number of parts expected in the final result: the
    /// call fails with a missing-part error unless exactly `expected` entries
    /// were recorded. A duplicate index inflates the count without covering a
    /// distinct slot, so a duplicate masks a genuinely missing part.
    pub fn finish(&mut self, expected: usize) -> (r: Result<Vec<PartId>, Error>)
        ensures
            r is Ok <==> old(self)@.len() == expected,
            r matches Ok(ids) ==> {
                &&& final(self)@.len() == 0
                &&& ids@.len() == old(self)@.len()
                &&& exists|s: Seq<(usize, PartId)>|
                    {
                        &&& s.to_multiset() == old(self)@.to_multiset()
                        &&& sorted_parts(s)
                        &&& ids@ == s.map_values(|e: (usize, PartId)| e.1)
                    }
            },
            r matches Err(e) ==> e == Error::MissingPart && final(self)@ == old(self)@,
    {
        if self.entries.len() != expected {
            return Err(Error::MissingPart);
        }
        sort(&mut self.entries);
        let ghost s = self.entries@;
        let mut ids: Vec<PartId> = Vec::new();
        proof {
            assert(ids@ =~= s.take(0).map_values(|e: (usize, PartId)| e.1));
        }
        while self.entries.len() > 0
            invariant
                self.entries@ == s.skip(s.len() - self.entries@.len()),
                self.entries@.len() <= s.len(),
                ids@ == s.take(s.len() - self.entries@.len()).map_values(
                    |e: (usize, PartId)| e.1,
                ),
            decreases self.entries@.len(),
        {
            let ghost done = s.len() - self.entries@.len();
            let x = self.entries.remove(0);
            ids.push(x.1);
            proof {
                assert(self.entries@ =~= s.skip(done + 1));
                assert(x == s[done]);
                assert(s.take(done + 1).map_values(|e: (usize, PartId)| e.1) =~= s.take(
                    done,
                ).map_values(|e: (usize, PartId)| e.1).push(s[done].1));
            }
        }
        proof {
            assert(s.take(s.len() as int) =~= s);
        }
        Ok(ids)
    }
}

/// The ledger that results from a sequence of `put` calls on a fresh ledger:
/// one entry per call, in call order.
pub open spec fn ledger_after(puts: Seq<(usize, PartId)>) -> Seq<(usize, PartId)>
    decreases puts.len(),
{
    if puts.len() == 0 {
        Seq::empty()
    } else {
        ledger_after(puts.drop_last()).push(puts.last())
    }
}

/// Part-ledger completeness: after any sequence of `put` calls on a fresh
/// ledger, the ledger holds exactly one entry per call, so `finish(expected)`
/// succeeds — per its contract, recorded count equals `expected` — iff
/// exactly `expected` puts were made; fewer, or more via duplicate indices,
/// fail with a missing-part error.
pub proof fn lemma_part_ledger_completeness(puts: Seq<(usize, PartId)>, expected: usize)
    ensures
        ledger_after(puts) == puts,
        (ledger_after(puts).len() == expected) <==> (puts.len() == expected),
    decreases puts.len(),
{
    if puts.len() == 0 {
        assert(ledger_after(puts) =~= puts);
    } else {
        lemma_part_ledger_completeness(puts.drop_last(), expected);
        assert(ledger_after(puts) =~= puts.drop_last().push(puts.last()));
        assert(puts.drop_last().push(puts.last()) =~= puts);
    }
}

} // verus!

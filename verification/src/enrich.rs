//! Advisory enrichment fan-out: derives an advisory query per search hit,
//! plans bounded-concurrency batches, and merges the per-entity outcomes
//! back into the hits in input order, tolerating per-entity failures.

use vstd::prelude::*;

verus! {

/// One SBOM search hit, as delivered to callers: identifying fields plus an
/// optional advisory count filled in by the enrichment fan-out. An absent
/// count means "no advisory data available", never zero.
#[derive(Clone, Debug)]
pub struct SearchHit {
    pub id: String,
    pub name: String,
    pub version: Option<String>,
    pub supplier: String,
    pub cpe: Option<String>,
    pub purl: Option<String>,
    pub href: String,
    pub advisories: Option<u64>,
}

/// The advisory query derived from a hit: advisories are looked up by the
/// hit's CPE, so a hit without one exposes no query and is skipped by the
/// fan-out.
pub open spec fn spec_advisories_query(cpe: Option<Seq<char>>) -> Option<Seq<char>> {
    match cpe {
        Some(c) => Some("fixed:\""@ + c + "\""@),
        None => None,
    }
}

impl SearchHit {
    /// The advisory-index query for this hit, if one can be derived: a
    /// phrase query for advisories fixing the hit's CPE. Hits without a CPE
    /// have no derivable query.
    pub fn advisories_query(&self) -> (r: Option<String>)
        ensures
            match r {
                Some(q) => self.cpe matches Some(c) && q@ == spec_advisories_query(
                    Some(c@),
                )->Some_0,
                None => self.cpe is None,
            },
    {
        match &self.cpe {
            Some(c) => {
                let mut q = "fixed:\"".to_owned();
                q.append(c.as_str());
                q.append("\"");
                Some(q)
            },
            None => None,
        }
    }
}

/// Merges per-entity advisory counts into the hits: the output has exactly
/// the input hits, in input order, each with its advisory count replaced by
/// the outcome for that position — a present count where the query
/// succeeded, an absent one where the entity had no query or its query
/// failed. One failed entity never disturbs the others.
pub fn merge_advisory_counts(hits: Vec<SearchHit>, counts: &Vec<Option<u64>>) -> (r: Vec<
    SearchHit,
>)
    requires
        hits@.len() == counts@.len(),
    ensures
        r@.len() == hits@.len(),
        forall|i: int| #![trigger r@[i]]
            0 <= i < r@.len() ==> r@[i] == (SearchHit { advisories: counts@[i], ..hits@[i] }),
{
    let ghost orig = hits@;
    let n: usize = hits.len();
    let mut rest = hits;
    let mut out: Vec<SearchHit> = Vec::new();
    let mut i: usize = 0;
    while i < n
        invariant
            n == orig.len(),
            n == counts@.len(),
            i <= n,
            rest@ == orig.skip(i as int),
            out@.len() == i,
            forall|j: int| #![trigger out@[j]]
                0 <= j < i ==> out@[j] == (SearchHit { advisories: counts@[j], ..orig[j] }),
        decreases n - i,
    {
        let ghost snap = rest@;
        let mut hit = rest.remove(0);
        proof {
            assert(snap[0] == orig[i as int]);
            assert(rest@ =~= orig.skip(i as int + 1));
        }
        hit.advisories = counts[i];
        out.push(hit);
        i += 1;
    }
    out
}

/// Splits `count` work items into consecutive batches of at most `limit`
/// items: the fan-out runs one batch of queries concurrently at a time, so
/// at most `limit` requests are outstanding at once.
pub fn concurrency_batches(count: usize, limit: usize) -> (r: Vec<(usize, usize)>)
    requires
        limit >= 1,
    ensures
        count == 0 ==> r@.len() == 0,
        count > 0 ==> r@.len() >= 1,
        forall|k: int| #![trigger r@[k]]
            0 <= k < r@.len() ==> {
                &&& (r@[k].0 as int) < (r@[k].1 as int)
                &&& (r@[k].1 as int) <= count
                &&& (r@[k].1 as int) - (r@[k].0 as int) <= limit
            },
        r@.len() > 0 ==> r@[0].0 == 0 && r@[r@.len() - 1].1 == count,
        forall|k: int| 0 < k < r@.len() ==> (#[trigger] r@[k]).0 == r@[k - 1].1,
{
    let mut r: Vec<(usize, usize)> = Vec::new();
    let mut lo: usize = 0;
    while lo < count
        invariant
            limit >= 1,
            lo <= count,
            count == 0 ==> r@.len() == 0,
            lo == 0 ==> r@.len() == 0,
            lo > 0 ==> r@.len() >= 1 && r@[0].0 == 0 && r@[r@.len() - 1].1 == lo,
            forall|k: int| #![trigger r@[k]]
                0 <= k < r@.len() ==> {
                    &&& (r@[k].0 as int) < (r@[k].1 as int)
                    &&& (r@[k].1 as int) <= count
                    &&& (r@[k].1 as int) - (r@[k].0 as int) <= limit
                },
            forall|k: int| 0 < k < r@.len() ==> (#[trigger] r@[k]).0 == r@[k - 1].1,
        decreases count - lo,
    {
        let hi: usize = if count - lo >= limit {
            lo + limit
        } else {
            count
        };
        let ghost prev = r@;
        r.push((lo, hi));
        proof {
            assert(r@[r@.len() - 1] == (lo, hi));
            assert forall|k: int| 0 < k < r@.len() implies (#[trigger] r@[k]).0 == r@[k - 1].1 by {
                if k < r@.len() - 1 {
                    assert(r@[k] == prev[k] && r@[k - 1] == prev[k - 1]);
                } else {
                    assert(r@[k - 1] == prev[k - 1]);
                }
            }
        }
        lo = hi;
    }
    r
}

} // verus!

//! Status resolver: seeds each directly asserted product with its status and
//! propagates statuses through the relationship graph, letting a direct
//! assertion beat any inherited one and the fixed precedence order decide
//! between competing inherited statuses.

use vstd::prelude::*;
use crate::error::Error;
use crate::graph::ProductGraph;
use crate::status::{lemma_precedence_injective, spec_precedence, ProductCveStatus};

verus! {

/// A direct status assertion on a product, by node index.
#[derive(Clone, Copy, Debug, PartialEq, Eq, Structural)]
pub struct StatusAssertion {
    pub product: usize,
    pub status: ProductCveStatus,
}

/// An un-propagated fact from one advisory's vulnerability statement: the
/// named product carries this status directly.
#[derive(Clone, Debug)]
pub struct ProductCveAssertion {
    pub product: String,
    pub status: ProductCveStatus,
}

/// Some assertion speaks directly about node `m`.
pub open spec fn directly_asserted(asserts: Seq<StatusAssertion>, m: int) -> bool {
    exists|k: int| 0 <= k < asserts.len() && (#[trigger] asserts[k]).product as int == m
}

/// `s` is asserted directly on `m`, and no other direct assertion on `m`
/// beats it in the fixed precedence order.
pub open spec fn direct_status_wins(
    asserts: Seq<StatusAssertion>,
    m: int,
    s: ProductCveStatus,
) -> bool {
    &&& exists|k: int|
        0 <= k < asserts.len() && (#[trigger] asserts[k]).product as int == m && asserts[k].status
            == s
    &&& forall|k: int|
        0 <= k < asserts.len() && (#[trigger] asserts[k]).product as int == m ==> spec_precedence(
            asserts[k].status,
        ) <= spec_precedence(s)
}

/// Mask of the directly asserted nodes: propagation never crosses into one,
/// because a direct assertion beats anything inherited.
pub open spec fn asserted_mask(asserts: Seq<StatusAssertion>, n: int) -> Seq<bool> {
    Seq::new(n as nat, |m: int| directly_asserted(asserts, m))
}

/// `s` is the winning direct status of some node `a` below `bound` from
/// which it propagates to `m` without crossing another directly asserted
/// node: `m` inherits `s` from `a`, its nearest direct assertion on that
/// path.
pub open spec fn inherited_candidate_below(
    g: ProductGraph,
    asserts: Seq<StatusAssertion>,
    bound: int,
    m: int,
    s: ProductCveStatus,
) -> bool {
    exists|a: int|
        0 <= a < bound && #[trigger] direct_status_wins(asserts, a, s) && g.propagates_to(
            asserted_mask(asserts, g.node_count()),
            a,
            m,
        )
}

/// `s` is inherited by `m` from some directly asserted node of the graph.
pub open spec fn inherited_candidate(
    g: ProductGraph,
    asserts: Seq<StatusAssertion>,
    m: int,
    s: ProductCveStatus,
) -> bool {
    inherited_candidate_below(g, asserts, g.node_count(), m, s)
}

/// Characterization of the resolved mapping `r`:
/// - a directly asserted product keeps its (winning) direct status, whatever
///   statuses it might inherit;
/// - any other product carries the inherited candidate of highest precedence
///   if it has candidates, and no status at all if it has none — absence
///   means "no applicable advisory data", never a default.
pub open spec fn resolution_of(
    g: ProductGraph,
    asserts: Seq<StatusAssertion>,
    r: Seq<Option<ProductCveStatus>>,
) -> bool {
    &&& r.len() == g.node_count()
    &&& forall|m: int| #![trigger r[m]]
        0 <= m < r.len() ==> {
            if directly_asserted(asserts, m) {
                r[m] matches Some(s) && direct_status_wins(asserts, m, s)
            } else {
                match r[m] {
                    Some(s) => inherited_candidate(g, asserts, m, s) && (forall|
                        c: ProductCveStatus,
                    |
                        inherited_candidate(g, asserts, m, c) ==> spec_precedence(c)
                            <= spec_precedence(s)),
                    None => forall|c: ProductCveStatus| !(#[trigger] inherited_candidate(g, asserts, m, c)),
                }
            }
        }
}

/// Seeds the per-node direct statuses: for every node some assertion names,
/// the directly asserted status of highest precedence; `None` elsewhere.
fn seed_direct(n: usize, asserts: &Vec<StatusAssertion>) -> (r: Vec<Option<ProductCveStatus>>)
    requires
        forall|k: int|
            0 <= k < asserts@.len() ==> ((#[trigger] asserts@[k]).product as int) < n,
    ensures
        r@.len() == n,
        forall|m: int| #![trigger r@[m]]
            0 <= m < n ==> match r@[m] {
                Some(s) => direct_status_wins(asserts@, m, s),
                None => !directly_asserted(asserts@, m),
            },
{
    let mut r: Vec<Option<ProductCveStatus>> = Vec::new();
    for z in 0..n
        invariant
            r@.len() == z,
            forall|m: int| 0 <= m < z ==> r@[m] is None,
    {
        r.push(None);
    }
    let len: usize = asserts.len();
    let mut j: usize = 0;
    while j < len
        invariant
            len == asserts@.len(),
            j <= len,
            r@.len() == n,
            forall|k: int|
                0 <= k < asserts@.len() ==> ((#[trigger] asserts@[k]).product as int) < n,
            forall|m: int| #![trigger r@[m]]
                0 <= m < n ==> match r@[m] {
                    Some(s) => direct_status_wins(asserts@.take(j as int), m, s),
                    None => !directly_asserted(asserts@.take(j as int), m),
                },
        decreases len - j,
    {
        let az = asserts[j];
        let p: usize = az.product;
        let ghost pre = asserts@.take(j as int);
        let ghost post = asserts@.take(j as int + 1);
        proof {
            assert(post.drop_last() =~= pre);
            assert(post.last() == az);
            assert(post[j as int] == az);
            assert(forall|idx: int| 0 <= idx < j ==> post[idx] == pre[idx]);
        }
        let cur = r[p];
        let replace: bool = match cur {
            None => true,
            Some(c) => az.status.precedence() > c.precedence(),
        };
        if replace {
            r.set(p, Some(az.status));
        }
        proof {
            let ghost pint = p as int;
            assert forall|m: int| #![trigger r@[m]] 0 <= m < n implies match r@[m] {
                Some(s) => direct_status_wins(post, m, s),
                None => !directly_asserted(post, m),
            } by {
                if m == pint {
                    let s = r@[m]->Some_0;
                    // the new value is asserted on m in the longer prefix
                    if replace {
                        assert(post[j as int].product as int == m && post[j as int].status == s);
                    } else {
                        let w = choose|k: int|
                            0 <= k < pre.len() && (#[trigger] pre[k]).product as int == m
                                && pre[k].status == s;
                        assert(post[w] == pre[w]);
                    }
                    // and nothing in the longer prefix beats it
                    assert forall|k: int|
                        0 <= k < post.len() && (#[trigger] post[k]).product as int
                            == m implies spec_precedence(post[k].status) <= spec_precedence(
                        s,
                    ) by {
                        if k < j {
                            assert(post[k] == pre[k]);
                        }
                    }
                } else {
                    match r@[m] {
                        Some(s) => {
                            let w = choose|k: int|
                                0 <= k < pre.len() && (#[trigger] pre[k]).product as int == m
                                    && pre[k].status == s;
                            assert(post[w] == pre[w]);
                            assert forall|k: int|
                                0 <= k < post.len() && (#[trigger] post[k]).product as int
                                    == m implies spec_precedence(post[k].status)
                                <= spec_precedence(s) by {
                                assert(k < j);
                                assert(post[k] == pre[k]);
                            }
                        },
                        None => {
                            if directly_asserted(post, m) {
                                let w = choose|k: int|
                                    0 <= k < post.len() && (#[trigger] post[k]).product as int
                                        == m;
                                assert(w < j);
                                assert(post[w] == pre[w]);
                                assert(directly_asserted(pre, m));
                                assert(false);
                            }
                        },
                    }
                }
            }
        }
        j += 1;
    }
    proof {
        assert(asserts@.take(len as int) =~= asserts@);
    }
    r
}


/// Highest-precedence combination of an optional current status with a
/// newly inherited one.
pub open spec fn spec_combine(
    cur: Option<ProductCveStatus>,
    s: ProductCveStatus,
) -> Option<ProductCveStatus> {
    match cur {
        None => Some(s),
        Some(c) => if spec_precedence(s) > spec_precedence(c) {
            Some(s)
        } else {
            Some(c)
        },
    }
}

/// Resolves the effective status of every node of the graph from a set of
/// direct assertions, by node index.
///
/// Directly asserted nodes keep their direct status; every other node takes
/// the highest-precedence status among those it inherits from the nearest
/// directly asserted nodes on its incoming paths, and no status when no
/// assertion reaches it.
pub fn resolve_statuses(g: &ProductGraph, asserts: &Vec<StatusAssertion>) -> (r: Vec<
    Option<ProductCveStatus>,
>)
    requires
        g.wf(),
        forall|k: int|
            0 <= k < asserts@.len() ==> ((#[trigger] asserts@[k]).product as int)
                < g.node_count(),
    ensures
        resolution_of(*g, asserts@, r@),
{
    let n: usize = g.len();
    let direct = seed_direct(n, asserts);
    let ghost mask = asserted_mask(asserts@, n as int);
    let mut blocked: Vec<bool> = Vec::new();
    for z in 0..n
        invariant
            direct@.len() == n,
            forall|m: int| #![trigger direct@[m]]
                0 <= m < n ==> match direct@[m] {
                    Some(s) => direct_status_wins(asserts@, m, s),
                    None => !directly_asserted(asserts@, m),
                },
            blocked@.len() == z,
            forall|m: int| 0 <= m < z ==> blocked@[m] == (direct@[m] is Some),
    {
        let b = direct[z].is_some();
        blocked.push(b);
    }
    proof {
        assert forall|m: int| 0 <= m < n implies blocked@[m] == directly_asserted(
            asserts@,
            m,
        ) by {
            match direct@[m] {
                Some(s) => {
                    assert(direct_status_wins(asserts@, m, s));
                    let w = choose|k: int|
                        0 <= k < asserts@.len() && (#[trigger] asserts@[k]).product as int == m
                            && asserts@[k].status == s;
                    assert(directly_asserted(asserts@, m));
                },
                None => {},
            }
        }
        assert(blocked@ =~= mask);
    }
    let mut result: Vec<Option<ProductCveStatus>> = Vec::new();
    for z in 0..n
        invariant
            direct@.len() == n,
            result@.len() == z,
            forall|m: int| 0 <= m < z ==> result@[m] == direct@[m],
    {
        result.push(direct[z]);
    }
    let mut a: usize = 0;
    while a < n
        invariant
            g.wf(),
            n == g.node_count(),
            forall|k: int|
                0 <= k < asserts@.len() ==> ((#[trigger] asserts@[k]).product as int) < n,
            direct@.len() == n,
            forall|m: int| #![trigger direct@[m]]
                0 <= m < n ==> match direct@[m] {
                    Some(s) => direct_status_wins(asserts@, m, s),
                    None => !directly_asserted(asserts@, m),
                },
            blocked@.len() == n,
            blocked@ == mask,
            mask == asserted_mask(asserts@, n as int),
            forall|m: int| 0 <= m < n ==> blocked@[m] == directly_asserted(asserts@, m),
            a <= n,
            result@.len() == n,
            forall|m: int| #![trigger result@[m]]
                0 <= m < n && directly_asserted(asserts@, m) ==> result@[m] == direct@[m],
            forall|m: int| #![trigger result@[m]]
                0 <= m < n && !directly_asserted(asserts@, m) ==> match result@[m] {
                    Some(s) => inherited_candidate_below(*g, asserts@, a as int, m, s) && (forall|
                        c: ProductCveStatus,
                    |
                        inherited_candidate_below(*g, asserts@, a as int, m, c)
                            ==> spec_precedence(c) <= spec_precedence(s)),
                    None => forall|c: ProductCveStatus|
                        !(#[trigger] inherited_candidate_below(*g, asserts@, a as int, m, c)),
                },
        decreases n - a,
    {
        let da = direct[a];
        match da {
            Some(sa) => {
                proof {
                    assert(direct_status_wins(asserts@, a as int, sa));
                }
                let reach = g.reachable_from_avoiding(a, &blocked);
                let ghost pre = result@;
                proof {
                    assert forall|jj: int| 0 <= jj < reach@.len() implies ((
                    #[trigger] reach@[jj]) as int) < n && !blocked@[reach@[jj] as int] by {
                        assert(reach@.contains(reach@[jj]));
                    }
                }
                let rlen: usize = reach.len();
                let mut idx: usize = 0;
                while idx < rlen
                    invariant
                        n == g.node_count(),
                        rlen == reach@.len(),
                        idx <= rlen,
                        result@.len() == n,
                        pre.len() == n,
                        reach@.no_duplicates(),
                        forall|jj: int| #![trigger reach@[jj]]
                            0 <= jj < rlen ==> (reach@[jj] as int) < n,
                        forall|jj: int| #![trigger reach@[jj]]
                            0 <= jj < idx ==> result@[reach@[jj] as int] == spec_combine(
                                pre[reach@[jj] as int],
                                sa,
                            ),
                        forall|jj: int| #![trigger reach@[jj]]
                            idx <= jj < rlen ==> result@[reach@[jj] as int]
                                == pre[reach@[jj] as int],
                        forall|mu: usize| #![trigger reach@.contains(mu)]
                            (mu as int) < n && !reach@.contains(mu) ==> result@[mu as int]
                                == pre[mu as int],
                    decreases rlen - idx,
                {
                    let m: usize = reach[idx];
                    proof {
                        assert(reach@.contains(reach@[idx as int]));
                    }
                    let cur = result[m];
                    proof {
                        assert(result@[reach@[idx as int] as int]
                            == pre[reach@[idx as int] as int]);
                    }
                    let newv: Option<ProductCveStatus> = match cur {
                        None => Some(sa),
                        Some(c) => if sa.precedence() > c.precedence() {
                            Some(sa)
                        } else {
                            Some(c)
                        },
                    };
                    result.set(m, newv);
                    proof {
                        assert(newv == spec_combine(pre[m as int], sa));
                        assert forall|jj: int| #![trigger reach@[jj]]
                            0 <= jj < idx + 1 implies result@[reach@[jj] as int] == spec_combine(
                            pre[reach@[jj] as int],
                            sa,
                        ) by {
                            if jj < idx {
                                assert(reach@[jj] != reach@[idx as int]);
                            }
                        }
                        assert forall|jj: int| #![trigger reach@[jj]]
                            idx + 1 <= jj < rlen implies result@[reach@[jj] as int]
                            == pre[reach@[jj] as int] by {
                            assert(reach@[jj] != reach@[idx as int]);
                        }
                    }
                    idx += 1;
                }
                proof {
                    assert forall|mu: usize| #![trigger reach@.contains(mu)]
                        (mu as int) < n && reach@.contains(mu) implies result@[mu as int]
                        == spec_combine(pre[mu as int], sa) by {
                        let jj = choose|jj: int| 0 <= jj < reach@.len() && reach@[jj] == mu;
                    }
                    assert forall|mu: usize| #![trigger reach@.contains(mu)]
                        (mu as int) < n && !reach@.contains(mu) implies result@[mu as int]
                        == pre[mu as int] by {}
                    assert forall|m: int| #![trigger result@[m]]
                        0 <= m < n && directly_asserted(asserts@, m) implies result@[m]
                        == direct@[m] by {
                        let mu = m as usize;
                        assert(blocked@[m]);
                        if reach@.contains(mu) {
                            assert(!blocked@[mu as int]);
                            assert(false);
                        }
                        assert(result@[m] == pre[m]);
                    }
                    let aa = a as int;
                    assert(directly_asserted(asserts@, aa)) by {
                        assert(blocked@[aa] == directly_asserted(asserts@, aa));
                        assert(direct_status_wins(asserts@, aa, sa));
                        let w = choose|k: int|
                            0 <= k < asserts@.len() && (#[trigger] asserts@[k]).product as int
                                == aa && asserts@[k].status == sa;
                    }
                    assert forall|m: int| #![trigger result@[m]]
                        0 <= m < n && !directly_asserted(asserts@, m) implies match result@[m] {
                        Some(s) => inherited_candidate_below(*g, asserts@, aa + 1, m, s) && (
                        forall|c: ProductCveStatus|
                            inherited_candidate_below(*g, asserts@, aa + 1, m, c)
                                ==> spec_precedence(c) <= spec_precedence(s)),
                        None => forall|c: ProductCveStatus|
                            !(#[trigger] inherited_candidate_below(*g, asserts@, aa + 1, m, c)),
                    } by {
                        let mu = m as usize;
                        assert(mu as int == m);
                        let cur = pre[m];
                        if reach@.contains(mu) {
                            assert(result@[m] == spec_combine(pre[m], sa));
                            assert(g.propagates_to(blocked@, aa, m));
                            assert(g.propagates_to(mask, aa, m));
                            assert(inherited_candidate_below(*g, asserts@, aa + 1, m, sa)) by {
                                assert(direct_status_wins(asserts@, aa, sa) && g.propagates_to(
                                    mask,
                                    aa,
                                    m,
                                ));
                            }
                            let s = result@[m]->Some_0;
                            assert(result@[m] is Some);
                            match cur {
                                None => {
                                    assert(s == sa);
                                },
                                Some(c0) => {
                                    assert(inherited_candidate_below(*g, asserts@, aa, m, c0));
                                    if spec_precedence(sa) > spec_precedence(c0) {
                                        assert(s == sa);
                                    } else {
                                        assert(s == c0);
                                        let a2 = choose|a2: int|
                                            0 <= a2 < aa && #[trigger] direct_status_wins(
                                                asserts@,
                                                a2,
                                                c0,
                                            ) && g.propagates_to(mask, a2, m);
                                        assert(0 <= a2 < aa + 1 && direct_status_wins(
                                            asserts@,
                                            a2,
                                            s,
                                        ) && g.propagates_to(mask, a2, m));
                                        assert(inherited_candidate_below(
                                            *g,
                                            asserts@,
                                            aa + 1,
                                            m,
                                            s,
                                        ));
                                    }
                                },
                            }
                            assert forall|c: ProductCveStatus|
                                inherited_candidate_below(
                                    *g,
                                    asserts@,
                                    aa + 1,
                                    m,
                                    c,
                                ) implies spec_precedence(c) <= spec_precedence(s) by {
                                let a2 = choose|a2: int|
                                    0 <= a2 < aa + 1 && #[trigger] direct_status_wins(
                                        asserts@,
                                        a2,
                                        c,
                                    ) && g.propagates_to(mask, a2, m);
                                if a2 < aa {
                                    assert(inherited_candidate_below(*g, asserts@, aa, m, c));
                                    match cur {
                                        None => {
                                            assert(false);
                                        },
                                        Some(c0) => {
                                            assert(spec_precedence(c) <= spec_precedence(c0));
                                            assert(spec_precedence(c0) <= spec_precedence(s));
                                        },
                                    }
                                } else {
                                    assert(direct_status_wins(asserts@, aa, c));
                                    let w = choose|k: int|
                                        0 <= k < asserts@.len()
                                            && (#[trigger] asserts@[k]).product as int == aa
                                            && asserts@[k].status == c;
                                    assert(spec_precedence(asserts@[w].status)
                                        <= spec_precedence(sa));
                                    assert(spec_precedence(c) <= spec_precedence(sa));
                                    assert(spec_precedence(sa) <= spec_precedence(s));
                                }
                            }
                        } else {
                            assert(result@[m] == pre[m]);
                            assert(!g.propagates_to(blocked@, aa, m));
                            match cur {
                                Some(s0) => {
                                    assert(inherited_candidate_below(*g, asserts@, aa, m, s0));
                                    let a2 = choose|a2: int|
                                        0 <= a2 < aa && #[trigger] direct_status_wins(
                                            asserts@,
                                            a2,
                                            s0,
                                        ) && g.propagates_to(mask, a2, m);
                                    assert(0 <= a2 < aa + 1);
                                    assert(inherited_candidate_below(
                                        *g,
                                        asserts@,
                                        aa + 1,
                                        m,
                                        s0,
                                    ));
                                    assert forall|c: ProductCveStatus|
                                        inherited_candidate_below(
                                            *g,
                                            asserts@,
                                            aa + 1,
                                            m,
                                            c,
                                        ) implies spec_precedence(c) <= spec_precedence(s0) by {
                                        let a3 = choose|a3: int|
                                            0 <= a3 < aa + 1 && #[trigger] direct_status_wins(
                                                asserts@,
                                                a3,
                                                c,
                                            ) && g.propagates_to(mask, a3, m);
                                        if a3 == aa {
                                            assert(g.propagates_to(blocked@, aa, m));
                                            assert(false);
                                        } else {
                                            assert(inherited_candidate_below(
                                                *g,
                                                asserts@,
                                                aa,
                                                m,
                                                c,
                                            ));
                                            assert(spec_precedence(c) <= spec_precedence(s0));
                                        }
                                    }
                                },
                                None => {
                                    assert forall|c: ProductCveStatus|
                                        !(#[trigger] inherited_candidate_below(
                                            *g,
                                            asserts@,
                                            aa + 1,
                                            m,
                                            c,
                                        )) by {
                                        if inherited_candidate_below(*g, asserts@, aa + 1, m, c) {
                                            let a3 = choose|a3: int|
                                                0 <= a3 < aa + 1 && #[trigger] direct_status_wins(
                                                    asserts@,
                                                    a3,
                                                    c,
                                                ) && g.propagates_to(mask, a3, m);
                                            if a3 == aa {
                                                assert(g.propagates_to(blocked@, aa, m));
                                                assert(false);
                                            } else {
                                                assert(inherited_candidate_below(
                                                    *g,
                                                    asserts@,
                                                    aa,
                                                    m,
                                                    c,
                                                ));
                                                assert(false);
                                            }
                                        }
                                    }
                                },
                            }
                        }
                    }
                }
            },
            None => {
                proof {
                    let aa = a as int;
                    assert(!directly_asserted(asserts@, aa)) by {
                        assert(blocked@[aa] == directly_asserted(asserts@, aa));
                    }
                    assert forall|m: int| #![trigger result@[m]]
                        0 <= m < n && !directly_asserted(asserts@, m) implies match result@[m] {
                        Some(s) => inherited_candidate_below(*g, asserts@, aa + 1, m, s) && (
                        forall|c: ProductCveStatus|
                            inherited_candidate_below(*g, asserts@, aa + 1, m, c)
                                ==> spec_precedence(c) <= spec_precedence(s)),
                        None => forall|c: ProductCveStatus|
                            !(#[trigger] inherited_candidate_below(*g, asserts@, aa + 1, m, c)),
                    } by {
                        match result@[m] {
                            Some(s0) => {
                                assert(inherited_candidate_below(*g, asserts@, aa, m, s0));
                                let a2 = choose|a2: int|
                                    0 <= a2 < aa && #[trigger] direct_status_wins(
                                        asserts@,
                                        a2,
                                        s0,
                                    ) && g.propagates_to(mask, a2, m);
                                assert(0 <= a2 < aa + 1);
                                assert(inherited_candidate_below(*g, asserts@, aa + 1, m, s0));
                                assert forall|c: ProductCveStatus|
                                    inherited_candidate_below(
                                        *g,
                                        asserts@,
                                        aa + 1,
                                        m,
                                        c,
                                    ) implies spec_precedence(c) <= spec_precedence(s0) by {
                                    let a3 = choose|a3: int|
                                        0 <= a3 < aa + 1 && #[trigger] direct_status_wins(
                                            asserts@,
                                            a3,
                                            c,
                                        ) && g.propagates_to(mask, a3, m);
                                    if a3 == aa {
                                        let w = choose|k: int|
                                            0 <= k < asserts@.len()
                                                && (#[trigger] asserts@[k]).product as int == aa
                                                && asserts@[k].status == c;
                                        assert(directly_asserted(asserts@, aa));
                                        assert(false);
                                    } else {
                                        assert(inherited_candidate_below(*g, asserts@, aa, m, c));
                                        assert(spec_precedence(c) <= spec_precedence(s0));
                                    }
                                }
                            },
                            None => {
                                assert forall|c: ProductCveStatus|
                                    !(#[trigger] inherited_candidate_below(
                                        *g,
                                        asserts@,
                                        aa + 1,
                                        m,
                                        c,
                                    )) by {
                                    if inherited_candidate_below(*g, asserts@, aa + 1, m, c) {
                                        let a3 = choose|a3: int|
                                            0 <= a3 < aa + 1 && #[trigger] direct_status_wins(
                                                asserts@,
                                                a3,
                                                c,
                                            ) && g.propagates_to(mask, a3, m);
                                        if a3 == aa {
                                            let w = choose|k: int|
                                                0 <= k < asserts@.len()
                                                    && (#[trigger] asserts@[k]).product as int
                                                    == aa && asserts@[k].status == c;
                                            assert(directly_asserted(asserts@, aa));
                                            assert(false);
                                        } else {
                                            assert(inherited_candidate_below(
                                                *g,
                                                asserts@,
                                                aa,
                                                m,
                                                c,
                                            ));
                                            assert(false);
                                        }
                                    }
                                }
                            },
                        }
                    }
                }
            },
        }
        a += 1;
    }
    proof {
        assert forall|m: int| #![trigger result@[m]] 0 <= m < result@.len() implies {
            if directly_asserted(asserts@, m) {
                result@[m] matches Some(s) && direct_status_wins(asserts@, m, s)
            } else {
                match result@[m] {
                    Some(s) => inherited_candidate(*g, asserts@, m, s) && (forall|
                        c: ProductCveStatus,
                    |
                        inherited_candidate(*g, asserts@, m, c) ==> spec_precedence(c)
                            <= spec_precedence(s)),
                    None => forall|c: ProductCveStatus|
                        !(#[trigger] inherited_candidate(*g, asserts@, m, c)),
                }
            }
        } by {
            if directly_asserted(asserts@, m) {
                assert(result@[m] == direct@[m]);
            }
        }
    }
    result
}


/// The resolved mapping is a function of the graph and the assertion set
/// alone: any two mappings that satisfy the resolution characterization are
/// identical, so resolving the same graph and assertions twice yields an
/// identical mapping.
pub proof fn lemma_resolution_deterministic(
    g: ProductGraph,
    asserts: Seq<StatusAssertion>,
    r1: Seq<Option<ProductCveStatus>>,
    r2: Seq<Option<ProductCveStatus>>,
)
    requires
        resolution_of(g, asserts, r1),
        resolution_of(g, asserts, r2),
    ensures
        r1 == r2,
{
    assert forall|m: int| 0 <= m < r1.len() implies #[trigger] r1[m] == r2[m] by {
        assert(0 <= m < r2.len());
        let v1 = r1[m];
        let v2 = r2[m];
        if directly_asserted(asserts, m) {
            let s1 = v1->Some_0;
            let s2 = v2->Some_0;
            assert(direct_status_wins(asserts, m, s1));
            assert(direct_status_wins(asserts, m, s2));
            let w1 = choose|k: int|
                0 <= k < asserts.len() && (#[trigger] asserts[k]).product as int == m
                    && asserts[k].status == s1;
            let w2 = choose|k: int|
                0 <= k < asserts.len() && (#[trigger] asserts[k]).product as int == m
                    && asserts[k].status == s2;
            assert(spec_precedence(s1) <= spec_precedence(s2));
            assert(spec_precedence(s2) <= spec_precedence(s1));
            lemma_precedence_injective(s1, s2);
        } else {
            match v1 {
                Some(s1) => {
                    assert(inherited_candidate(g, asserts, m, s1));
                    match v2 {
                        Some(s2) => {
                            assert(inherited_candidate(g, asserts, m, s2));
                            assert(spec_precedence(s1) <= spec_precedence(s2));
                            assert(spec_precedence(s2) <= spec_precedence(s1));
                            lemma_precedence_injective(s1, s2);
                        },
                        None => {
                            assert(!inherited_candidate(g, asserts, m, s1));
                            assert(false);
                        },
                    }
                },
                None => {
                    match v2 {
                        Some(s2) => {
                            assert(inherited_candidate(g, asserts, m, s2));
                            assert(!inherited_candidate(g, asserts, m, s2));
                            assert(false);
                        },
                        None => {},
                    }
                },
            }
        }
    }
    assert(r1 =~= r2);
}

/// The resolved status of every product of a graph, queryable by product
/// identifier. A product absent from the mapping has no applicable advisory
/// data.
#[derive(Debug)]
pub struct StatusMap {
    statuses: Vec<Option<ProductCveStatus>>,
}

impl View for StatusMap {
    type V = Seq<Option<ProductCveStatus>>;

    closed spec fn view(&self) -> Seq<Option<ProductCveStatus>> {
        self.statuses@
    }
}

impl StatusMap {
    /// Number of nodes covered by the mapping.
    pub fn len(&self) -> (r: usize)
        ensures
            r == self@.len(),
    {
        self.statuses.len()
    }

    /// Resolved status of node `i`.
    pub fn status_at(&self, i: usize) -> (r: Option<ProductCveStatus>)
        requires
            (i as int) < self@.len(),
        ensures
            r == self@[i as int],
    {
        self.statuses[i]
    }

    /// Resolved status of the product carrying identifier `id`; `None` for
    /// an identifier the graph does not have.
    pub fn status_of(&self, g: &ProductGraph, id: &String) -> (r: Option<ProductCveStatus>)
        requires
            g.wf(),
            self@.len() == g.node_count(),
        ensures
            r == (if g.has_id(id@) {
                self@[g.id_index(id@)]
            } else {
                None::<ProductCveStatus>
            }),
    {
        match g.index_of(id) {
            Some(i) => self.status_at(i),
            None => None,
        }
    }
}

/// The assertions with each product identifier replaced by its node index.
pub open spec fn spec_translate(g: ProductGraph, a: Seq<ProductCveAssertion>) -> Seq<
    StatusAssertion,
> {
    a.map_values(
        |x: ProductCveAssertion|
            StatusAssertion { product: g.id_index(x.product@) as usize, status: x.status },
    )
}

/// Resolves a set of advisory assertions, given by product identifier, over
/// the relationship graph.
///
/// Fails with `MalformedInput` exactly when an assertion names a product the
/// graph does not have; an empty assertion set resolves to the empty
/// mapping, not an error.
pub fn resolve(g: &ProductGraph, assertions: &Vec<ProductCveAssertion>) -> (r: Result<
    StatusMap,
    Error,
>)
    requires
        g.wf(),
    ensures
        r is Ok <==> (forall|k: int|
            0 <= k < assertions@.len() ==> g.has_id((#[trigger] assertions@[k]).product@)),
        r matches Err(e) ==> e == Error::MalformedInput,
        r matches Ok(map) ==> map@.len() == g.node_count() && resolution_of(
            *g,
            spec_translate(*g, assertions@),
            map@,
        ),
{
    let len: usize = assertions.len();
    let mut translated: Vec<StatusAssertion> = Vec::new();
    let mut k: usize = 0;
    while k < len
        invariant
            g.wf(),
            len == assertions@.len(),
            k <= len,
            translated@.len() == k,
            forall|j: int| 0 <= j < k ==> g.has_id((#[trigger] assertions@[j]).product@),
            forall|j: int| #![trigger translated@[j]]
                0 <= j < k ==> translated@[j] == (StatusAssertion {
                    product: g.id_index(assertions@[j].product@) as usize,
                    status: assertions@[j].status,
                }) && ((translated@[j].product as int) < g.node_count()),
        decreases len - k,
    {
        match g.index_of(&assertions[k].product) {
            Some(i) => {
                translated.push(StatusAssertion { product: i, status: assertions[k].status });
            },
            None => {
                proof {
                    assert(!g.has_id(assertions@[k as int].product@));
                }
                return Err(Error::MalformedInput);
            },
        }
        k += 1;
    }
    proof {
        assert(translated@ =~= spec_translate(*g, assertions@));
    }
    let statuses = resolve_statuses(g, &translated);
    Ok(StatusMap { statuses })
}

} // verus!

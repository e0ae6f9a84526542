//! In-memory representation of a CSAF product tree: product identifiers
//! connected by typed, directed relationships, with cycle-safe traversal.

use vstd::prelude::*;
use vstd::seq_lib::*;
use vstd::set_lib::*;
use crate::error::Error;

verus! {

/// Kind of a directed relationship between two products of a product tree.
#[derive(Clone, Copy, Debug, PartialEq, Eq, Structural)]
pub enum RelationshipKind {
    DefaultComponentOf,
    InstalledOn,
    InstalledWith,
    VariantOf,
    ExternalReference,
}

/// An outgoing edge of the built graph; the object product is identified by
/// its node index.
#[derive(Clone, Copy, Debug, PartialEq, Eq, Structural)]
pub struct Relationship {
    pub kind: RelationshipKind,
    pub target: usize,
}

/// A relationship as written in a product tree entry: the object product is
/// named by its identifier.
#[derive(Clone, Debug)]
pub struct ProductRelation {
    pub kind: RelationshipKind,
    pub target: String,
}

/// One entry of a CSAF product tree: a product identifier with its outgoing
/// relationships.
#[derive(Clone, Debug)]
pub struct ProductNode {
    pub id: String,
    pub relations: Vec<ProductRelation>,
}

/// A product tree is well formed when no identifier is defined twice and
/// every relationship names a product that the tree defines.
pub open spec fn tree_ok(t: Seq<ProductNode>) -> bool {
    &&& forall|i: int, j: int| 0 <= i < j < t.len() ==> t[i].id@ != t[j].id@
    &&& forall|i: int, k: int|
        0 <= i < t.len() && 0 <= k < t[i].relations@.len() ==> exists|j: int|
            0 <= j < t.len() && t[j].id@ == (#[trigger] t[i].relations@[k]).target@
}

/// The product-relationship graph of one advisory: nodes are products,
/// directed edges are typed relationships.
#[derive(Debug)]
pub struct ProductGraph {
    ids: Vec<String>,
    edges: Vec<Vec<Relationship>>,
}

impl ProductGraph {
    /// Number of product nodes.
    pub closed spec fn node_count(self) -> int {
        self.ids@.len() as int
    }

    /// Identifier of node `i`.
    pub closed spec fn id_at(self, i: int) -> Seq<char> {
        self.ids@[i]@
    }

    /// Number of outgoing edges of node `i`.
    pub closed spec fn edge_count(self, i: int) -> int {
        self.edges@[i]@.len() as int
    }

    /// The `k`-th outgoing edge of node `i`.
    pub closed spec fn edge_at(self, i: int, k: int) -> Relationship {
        self.edges@[i]@[k]
    }

    #[verifier::type_invariant]
    pub closed spec fn inv(self) -> bool {
        self.edges@.len() == self.ids@.len()
    }

    /// Well-formedness: every edge points at a node of the graph and no two
    /// nodes share an identifier.
    pub open spec fn wf(self) -> bool {
        &&& self.inv()
        &&& forall|i: int, k: int|
            0 <= i < self.node_count() && 0 <= k < self.edge_count(i)
                ==> (#[trigger] self.edge_at(i, k)).target < self.node_count()
        &&& forall|i: int, j: int|
            0 <= i < j < self.node_count() ==> self.id_at(i) != self.id_at(j)
    }

    /// Whether the graph holds a directed edge from node `i` to node `j`.
    pub open spec fn has_edge(self, i: int, j: int) -> bool {
        &&& 0 <= i < self.node_count()
        &&& exists|k: int|
            0 <= k < self.edge_count(i) && (#[trigger] self.edge_at(i, k)).target == j
    }

    /// `p` is a walk through the graph: nonempty, within bounds, and each
    /// consecutive pair joined by an edge.
    pub open spec fn is_path(self, p: Seq<int>) -> bool {
        &&& p.len() >= 1
        &&& forall|i: int| 0 <= i < p.len() ==> 0 <= #[trigger] p[i] < self.node_count()
        &&& forall|i: int| #![trigger p[i]]
            0 <= i < p.len() - 1 ==> self.has_edge(p[i], p[i + 1])
    }

    /// Node `to` can be reached from node `from` by following zero or more
    /// edges.
    pub open spec fn reachable(self, from: int, to: int) -> bool {
        exists|p: Seq<int>| self.is_path(p) && p.first() == from && p.last() == to
    }

    /// Whether some node carries the identifier `id`.
    pub open spec fn has_id(self, id: Seq<char>) -> bool {
        exists|i: int| 0 <= i < self.node_count() && self.id_at(i) == id
    }

    /// The node index carrying identifier `id`; meaningful only when
    /// `has_id(id)` holds (identifiers are unique in a well-formed graph).
    pub open spec fn id_index(self, id: Seq<char>) -> int {
        choose|i: int| 0 <= i < self.node_count() && self.id_at(i) == id
    }

    /// Every node reaches itself by the trivial walk.
    pub proof fn lemma_reachable_refl(self, x: int)
        requires
            0 <= x < self.node_count(),
        ensures
            self.reachable(x, x),
    {
        let p = seq![x];
        assert(self.is_path(p) && p.first() == x && p.last() == x);
    }

    /// Reachability extends along an edge.
    pub proof fn lemma_reachable_step(self, from: int, mid: int, to: int)
        requires
            self.reachable(from, mid),
            self.has_edge(mid, to),
            0 <= to < self.node_count(),
        ensures
            self.reachable(from, to),
    {
        let p = choose|p: Seq<int>| self.is_path(p) && p.first() == from && p.last() == mid;
        let q = p.push(to);
        assert forall|i: int| 0 <= i < q.len() - 1 implies self.has_edge(
            #[trigger] q[i],
            q[i + 1],
        ) by {
            if i < p.len() - 1 {
                assert(q[i] == p[i] && q[i + 1] == p[i + 1]);
            } else {
                assert(q[i] == p.last() && q[i + 1] == to);
            }
        }
        assert(self.is_path(q) && q.first() == from && q.last() == to);
    }

    /// A set of nodes that contains the start of a path and is closed under
    /// outgoing edges contains the end of the path.
    proof fn lemma_closed_contains_path_end(self, visited: Seq<bool>, p: Seq<int>)
        requires
            self.wf(),
            visited.len() == self.node_count(),
            self.is_path(p),
            visited[p.first()],
            forall|a: int, b: int|
                0 <= a < self.node_count() && visited[a] && #[trigger] self.has_edge(a, b)
                    ==> 0 <= b < self.node_count() && visited[b],
        ensures
            visited[p.last()],
        decreases p.len(),
    {
        if p.len() > 1 {
            let q = p.drop_last();
            assert(q.len() == p.len() - 1);
            assert(forall|i: int| 0 <= i < q.len() ==> q[i] == p[i]);
            assert(self.is_path(q));
            self.lemma_closed_contains_path_end(visited, q);
            assert(self.has_edge(p[p.len() - 2], p[p.len() - 1]));
        }
    }
}

/// A sequence of distinct indices below `n` has at most `n` elements.
proof fn lemma_distinct_bounded_len(s: Seq<usize>, n: int)
    requires
        s.no_duplicates(),
        forall|k: int| 0 <= k < s.len() ==> (#[trigger] s[k] as int) < n,
        n >= 0,
    ensures
        s.len() <= n,
{
    let t = s.map_values(|x: usize| x as int);
    assert(t.no_duplicates());
    t.unique_seq_to_set();
    assert(t.to_set().subset_of(set_int_range(0, n))) by {
        assert forall|x: int| t.to_set().contains(x) implies set_int_range(0, n).contains(x) by {
            let k = choose|k: int| 0 <= k < t.len() && t[k] == x;
            assert((s[k] as int) < n);
        }
    }
    lemma_int_range(0, n);
    lemma_len_subset(t.to_set(), set_int_range(0, n));
}

impl ProductGraph {
    /// Builds the relationship graph of a product tree.
    ///
    /// Fails with `MalformedInput` exactly when the tree defines a product
    /// twice or a relationship names a product absent from the tree; a
    /// well-formed tree always builds.
    pub fn build(tree: &Vec<ProductNode>) -> (r: Result<ProductGraph, Error>)
        ensures
            r is Ok <==> tree_ok(tree@),
            r matches Err(e) ==> e == Error::MalformedInput,
            r matches Ok(g) ==> {
                &&& g.wf()
                &&& g.node_count() == tree@.len()
                &&& forall|i: int| 0 <= i < tree@.len() ==> g.id_at(i) == tree@[i].id@
                &&& forall|i: int|
                    0 <= i < tree@.len() ==> g.edge_count(i) == tree@[i].relations@.len()
                &&& forall|i: int, k: int|
                    0 <= i < tree@.len() && 0 <= k < tree@[i].relations@.len() ==> {
                        &&& (#[trigger] g.edge_at(i, k)).kind == tree@[i].relations@[k].kind
                        &&& 0 <= g.edge_at(i, k).target < tree@.len()
                        &&& g.id_at(g.edge_at(i, k).target as int)
                            == tree@[i].relations@[k].target@
                    }
            },
    {
        let n: usize = tree.len();
        let mut ids: Vec<String> = Vec::new();
        for i in 0..n
            invariant
                n == tree@.len(),
                ids@.len() == i,
                forall|j: int| 0 <= j < i ==> ids@[j]@ == tree@[j].id@,
        {
            ids.push(tree[i].id.clone());
        }
        // Reject a tree that defines the same product twice.
        let mut i: usize = 0;
        while i < n
            invariant
                n == tree@.len(),
                ids@.len() == n,
                forall|j: int| 0 <= j < n ==> ids@[j]@ == tree@[j].id@,
                i <= n,
                forall|a: int, b: int| 0 <= a < b < n && a < i ==> ids@[a]@ != ids@[b]@,
            decreases n - i,
        {
            let mut j: usize = i + 1;
            while j < n
                invariant
                    n == tree@.len(),
                    ids@.len() == n,
                    forall|jj: int| 0 <= jj < n ==> ids@[jj]@ == tree@[jj].id@,
                    i < j || i + 1 == j,
                    i < n,
                    j <= n,
                    forall|b: int| i < b < j ==> ids@[i as int]@ != ids@[b]@,
                decreases n - j,
            {
                if ids[i] == ids[j] {
                    proof {
                        assert(tree@[i as int].id@ == tree@[j as int].id@);
                        assert(!tree_ok(tree@));
                    }
                    return Err(Error::MalformedInput);
                }
                j += 1;
            }
            i += 1;
        }
        // Resolve every relationship target to its node index.
        let mut edges: Vec<Vec<Relationship>> = Vec::new();
        let mut i: usize = 0;
        while i < n
            invariant
                n == tree@.len(),
                ids@.len() == n,
                forall|j: int| 0 <= j < n ==> ids@[j]@ == tree@[j].id@,
                forall|a: int, b: int| 0 <= a < b < n ==> ids@[a]@ != ids@[b]@,
                i <= n,
                edges@.len() == i,
                forall|a: int| 0 <= a < i ==> (#[trigger] edges@[a]@).len()
                    == tree@[a].relations@.len(),
                forall|a: int, k: int|
                    0 <= a < i && 0 <= k < tree@[a].relations@.len() ==> {
                        &&& (#[trigger] edges@[a]@[k]).kind == tree@[a].relations@[k].kind
                        &&& (edges@[a]@[k].target as int) < n
                        &&& ids@[edges@[a]@[k].target as int]@ == tree@[a].relations@[k].target@
                    },
            decreases n - i,
        {
            let node = &tree[i];
            let m: usize = node.relations.len();
            let mut row: Vec<Relationship> = Vec::new();
            let mut k: usize = 0;
            while k < m
                invariant
                    n == tree@.len(),
                    ids@.len() == n,
                    forall|j: int| 0 <= j < n ==> ids@[j]@ == tree@[j].id@,
                    i < n,
                    node == &tree[i as int],
                    m == node.relations@.len(),
                    k <= m,
                    row@.len() == k,
                    forall|kk: int|
                        0 <= kk < k ==> {
                            &&& (#[trigger] row@[kk]).kind == node.relations@[kk].kind
                            &&& (row@[kk].target as int) < n
                            &&& ids@[row@[kk].target as int]@ == node.relations@[kk].target@
                        },
                decreases m - k,
            {
                match find_id(&ids, &node.relations[k].target) {
                    Some(t) => {
                        row.push(Relationship { kind: node.relations[k].kind, target: t });
                    },
                    None => {
                        proof {
                            let ri = i as int;
                            let rk = k as int;
                            let tgt = tree@[ri].relations@[rk].target@;
                            assert forall|j: int| 0 <= j < tree@.len() implies tree@[j].id@
                                != tgt by {
                                assert(ids@[j]@ == tree@[j].id@);
                                assert(ids@[j]@ != node.relations@[rk].target@);
                            }
                            assert(!tree_ok(tree@)) by {
                                if tree_ok(tree@) {
                                    let rel = tree@[ri].relations@[rk];
                                    assert(exists|j: int|
                                        0 <= j < tree@.len() && tree@[j].id@ == rel.target@);
                                    assert(false);
                                }
                            }
                        }
                        return Err(Error::MalformedInput);
                    },
                }
                k += 1;
            }
            edges.push(row);
            i += 1;
        }
        let g = ProductGraph { ids, edges };
        assert forall|a: int, b: int| 0 <= a < b < tree@.len() implies tree@[a].id@
            != tree@[b].id@ by {
            assert(g.ids@[a]@ == tree@[a].id@ && g.ids@[b]@ == tree@[b].id@);
        }
        assert(tree_ok(tree@)) by {
            assert forall|a: int, k: int|
                0 <= a < tree@.len() && 0 <= k < tree@[a].relations@.len() implies exists|j: int|
                0 <= j < tree@.len() && tree@[j].id@
                    == (#[trigger] tree@[a].relations@[k]).target@ by {
                let t = g.edges@[a]@[k].target as int;
                assert(0 <= t < tree@.len() && tree@[t].id@ == tree@[a].relations@[k].target@);
            }
        }
        Ok(g)
    }

    /// Number of product nodes.
    pub fn len(&self) -> (r: usize)
        ensures
            r == self.node_count(),
    {
        proof {
            use_type_invariant(self);
        }
        self.ids.len()
    }

    /// Identifier of node `i`.
    pub fn id(&self, i: usize) -> (r: &String)
        requires
            0 <= i < self.node_count(),
        ensures
            r@ == self.id_at(i as int),
    {
        &self.ids[i]
    }

    /// Index of the node carrying identifier `id`, if the graph has one.
    pub fn index_of(&self, id: &String) -> (r: Option<usize>)
        requires
            self.wf(),
        ensures
            match r {
                Some(i) => self.has_id(id@) && i == self.id_index(id@) && (i as int)
                    < self.node_count() && self.id_at(i as int) == id@,
                None => !self.has_id(id@),
            },
    {
        let r = find_id(&self.ids, id);
        proof {
            if r is Some {
                let i = r->Some_0 as int;
                assert(self.has_id(id@)) by {
                    assert(self.id_at(i) == id@);
                }
                let c = self.id_index(id@);
                assert(0 <= c < self.node_count() && self.id_at(c) == id@);
                assert(i == c) by {
                    if i < c {
                        assert(self.id_at(i) != self.id_at(c));
                    } else if c < i {
                        assert(self.id_at(c) != self.id_at(i));
                    }
                }
            }
        }
        r
    }

    /// Outgoing neighbours of `node`, optionally restricted to one
    /// relationship kind, in edge order.
    pub fn neighbors(&self, node: usize, kind: Option<RelationshipKind>) -> (r: Vec<usize>)
        requires
            self.wf(),
            (node as int) < self.node_count(),
        ensures
            r@ == self.spec_neighbors(node as int, kind),
    {
        proof {
            use_type_invariant(self);
        }
        let row = &self.edges[node];
        let m: usize = row.len();
        let mut r: Vec<usize> = Vec::new();
        let ghost pred = |e: Relationship| kind is None || kind == Some(e.kind);
        let mut k: usize = 0;
        while k < m
            invariant
                m == row@.len(),
                row@ == self.edges@[node as int]@,
                k <= m,
                pred == (|e: Relationship| kind is None || kind == Some(e.kind)),
                r@ == row@.take(k as int).filter(pred).map_values(|e: Relationship| e.target),
            decreases m - k,
        {
            let matches = match kind {
                None => true,
                Some(kv) => row[k].kind == kv,
            };
            proof {
                reveal(Seq::filter);
                let prefix = row@.take(k as int);
                let next = row@.take(k as int + 1);
                assert(next.drop_last() =~= prefix);
                assert(next.last() == row@[k as int]);
                if pred(row@[k as int]) {
                    assert(next.filter(pred) =~= prefix.filter(pred).push(row@[k as int]));
                    assert(next.filter(pred).map_values(|e: Relationship| e.target)
                        =~= prefix.filter(pred).map_values(|e: Relationship| e.target).push(
                        row@[k as int].target,
                    ));
                } else {
                    assert(next.filter(pred) =~= prefix.filter(pred));
                }
            }
            if matches {
                r.push(row[k].target);
            }
            k += 1;
        }
        proof {
            assert(row@.take(m as int) =~= row@);
        }
        r
    }

    /// Targets of the edges of node `i` whose kind matches the filter, in
    /// edge order.
    pub open spec fn spec_neighbors(self, i: int, kind: Option<RelationshipKind>) -> Seq<usize> {
        self.edges_seq(i).filter(|e: Relationship| kind is None || kind == Some(e.kind))
            .map_values(|e: Relationship| e.target)
    }

    /// The edges of node `i` as a sequence.
    pub closed spec fn edges_seq(self, i: int) -> Seq<Relationship> {
        self.edges@[i]@
    }

    /// Every product reachable from `start` by following relationships,
    /// each exactly once. Traversal is cycle-safe through the visited set: a
    /// node already seen is skipped, never an error, so the result is the
    /// exact transitive closure of the outgoing edges, with or without
    /// cycles.
    pub fn reachable_from(&self, start: usize) -> (r: Vec<usize>)
        requires
            self.wf(),
            (start as int) < self.node_count(),
        ensures
            r@.no_duplicates(),
            forall|m: usize| r@.contains(m) ==> (m as int) < self.node_count(),
            forall|m: usize| #![trigger r@.contains(m)]
                (m as int) < self.node_count()
                    ==> (r@.contains(m) <==> self.reachable(start as int, m as int)),
            r@.contains(start),
    {
        broadcast use vstd::seq_lib::lemma_seq_contains_after_push;

        let n: usize = self.ids.len();
        let mut visited: Vec<bool> = Vec::new();
        for z in 0..n
            invariant
                visited@.len() == z,
                forall|m: int| 0 <= m < z ==> !visited@[m],
        {
            visited.push(false);
        }
        let mut order: Vec<usize> = Vec::new();
        visited.set(start, true);
        order.push(start);
        proof {
            self.lemma_reachable_refl(start as int);
            assert(order@[0] == start);
            assert(order@.contains(start));
            assert forall|m: usize| (m as int) < n implies (visited@[m as int]
                == order@.contains(m)) by {
                if m != start {
                    assert(forall|k: int| 0 <= k < order@.len() ==> order@[k] == start);
                }
            }
        }
        let mut i: usize = 0;
        while i < order.len()
            invariant
                self.wf(),
                n == self.node_count(),
                (start as int) < n,
                visited@.len() == n,
                i <= order@.len(),
                order@.len() <= n,
                order@.no_duplicates(),
                forall|k: int| 0 <= k < order@.len() ==> (#[trigger] order@[k] as int) < n,
                forall|m: usize| (m as int) < n ==> (visited@[m as int] == order@.contains(m)),
                order@.contains(start),
                forall|k: int|
                    0 <= k < order@.len() ==> self.reachable(
                        start as int,
                        #[trigger] order@[k] as int,
                    ),
                forall|a: int, b: int|
                    0 <= a < i && #[trigger] self.has_edge(order@[a] as int, b) ==> 0 <= b < n
                        && visited@[b],
            decreases n - order@.len(), order@.len() - i,
        {
            let node: usize = order[i];
            let row = &self.edges[node];
            let m: usize = row.len();
            let ghost order_start_len = order@.len();
            let mut k: usize = 0;
            while k < m
                invariant
                    self.wf(),
                    n == self.node_count(),
                    (start as int) < n,
                    visited@.len() == n,
                    i < order@.len(),
                    order@.len() <= n,
                    order@.no_duplicates(),
                    forall|kk: int| 0 <= kk < order@.len() ==> (#[trigger] order@[kk] as int) < n,
                    forall|mm: usize| (mm as int) < n
                        ==> (visited@[mm as int] == order@.contains(mm)),
                    order@.contains(start),
                    forall|kk: int|
                        0 <= kk < order@.len() ==> self.reachable(
                            start as int,
                            #[trigger] order@[kk] as int,
                        ),
                    forall|a: int, b: int|
                        0 <= a < i && #[trigger] self.has_edge(order@[a] as int, b) ==> 0 <= b < n
                            && visited@[b],
                    node == order@[i as int],
                    (node as int) < n,
                    row@ == self.edges@[node as int]@,
                    m == row@.len(),
                    k <= m,
                    order_start_len <= order@.len(),
                    forall|kk: int|
                        0 <= kk < k ==> ((#[trigger] row@[kk]).target as int) < n
                            && visited@[row@[kk].target as int],
                decreases m - k,
            {
                let t: usize = row[k].target;
                assert((t as int) < n) by {
                    assert(self.edge_at(node as int, k as int).target < self.node_count());
                }
                if !visited[t] {
                    let ghost prev = order@;
                    visited.set(t, true);
                    order.push(t);
                    proof {
                        assert(order@ == prev.push(t));
                        assert(order@[prev.len() as int] == t);
                        assert(order@.contains(t));
                        assert(self.has_edge(node as int, t as int)) by {
                            assert(self.edge_at(node as int, k as int).target == t);
                        }
                        assert(self.reachable(start as int, node as int));
                        self.lemma_reachable_step(start as int, node as int, t as int);
                        assert(!prev.contains(t));
                        assert(order@.no_duplicates()) by {
                            assert forall|x: int, y: int|
                                0 <= x < y < order@.len() implies order@[x] != order@[y] by {
                                if y == order@.len() - 1 {
                                    assert(prev.contains(prev[x]));
                                }
                            }
                        }
                        assert forall|mm: usize| (mm as int) < n implies (visited@[mm as int]
                            == order@.contains(mm)) by {
                            lemma_seq_contains_after_push(prev, t, mm);
                        }
                        lemma_distinct_bounded_len(order@, n as int);
                    }
                }
                k += 1;
            }
            proof {
                assert forall|a: int, b: int|
                    0 <= a < i + 1 && #[trigger] self.has_edge(order@[a] as int, b) implies 0 <= b
                    < n && visited@[b] by {
                    if a == i {
                        let kk = choose|kk: int|
                            0 <= kk < self.edge_count(node as int) && (#[trigger] self.edge_at(
                                node as int,
                                kk,
                            )).target == b;
                        assert(visited@[row@[kk].target as int]);
                    }
                }
                lemma_distinct_bounded_len(order@, n as int);
            }
            i += 1;
        }
        proof {
            assert forall|m: usize|
                (m as int) < self.node_count() && self.reachable(
                    start as int,
                    m as int,
                ) implies order@.contains(m) by {
                let p = choose|p: Seq<int>|
                    self.is_path(p) && p.first() == start as int && p.last() == m as int;
                assert forall|a: int, b: int|
                    0 <= a < self.node_count() && visited@[a] && #[trigger] self.has_edge(
                        a,
                        b,
                    ) implies 0 <= b < self.node_count() && visited@[b] by {
                    let au = a as usize;
                    assert(visited@[au as int]);
                    assert(order@.contains(au));
                    let idx = choose|idx: int| 0 <= idx < order@.len() && order@[idx] == au;
                    assert(self.has_edge(order@[idx] as int, b));
                }
                self.lemma_closed_contains_path_end(visited@, p);
                assert(visited@[m as int]);
            }
            assert forall|m: usize| order@.contains(m) implies (m as int)
                < self.node_count() by {
                let k = choose|k: int| 0 <= k < order@.len() && order@[k] == m;
            }
            assert forall|m: usize|
                (m as int) < self.node_count() && order@.contains(m) implies self.reachable(
                start as int,
                m as int,
            ) by {
                let k = choose|k: int| 0 <= k < order@.len() && order@[k] == m;
            }
        }
        order
    }
}

impl ProductGraph {
    /// `p` is a walk of at least one edge all of whose nodes after the first
    /// avoid the blocked set.
    pub open spec fn guarded_path(self, blocked: Seq<bool>, p: Seq<int>) -> bool {
        &&& self.is_path(p)
        &&& p.len() >= 2
        &&& forall|i: int| 1 <= i < p.len() ==> !blocked[#[trigger] p[i]]
    }

    /// Node `to` can be reached from node `from` by at least one edge while
    /// touching no blocked node after leaving `from`.
    pub open spec fn propagates_to(self, blocked: Seq<bool>, from: int, to: int) -> bool {
        exists|p: Seq<int>|
            self.guarded_path(blocked, p) && p.first() == from && p.last() == to
    }

    /// Guarded reachability extends along an edge into an unblocked node.
    proof fn lemma_propagates_step(self, blocked: Seq<bool>, from: int, mid: int, to: int)
        requires
            self.propagates_to(blocked, from, mid),
            self.has_edge(mid, to),
            0 <= to < self.node_count(),
            blocked.len() == self.node_count(),
            !blocked[to],
        ensures
            self.propagates_to(blocked, from, to),
    {
        let p = choose|p: Seq<int>|
            self.guarded_path(blocked, p) && p.first() == from && p.last() == mid;
        let q = p.push(to);
        assert forall|i: int| 0 <= i < q.len() - 1 implies self.has_edge(
            #[trigger] q[i],
            q[i + 1],
        ) by {
            if i < p.len() - 1 {
                assert(q[i] == p[i] && q[i + 1] == p[i + 1]);
            } else {
                assert(q[i] == p.last() && q[i + 1] == to);
            }
        }
        assert(self.guarded_path(blocked, q) && q.first() == from && q.last() == to);
    }

    /// A set of unblocked nodes that holds every unblocked direct successor
    /// of the start node and is closed under edges into unblocked nodes
    /// holds the end of every guarded walk from the start.
    proof fn lemma_guarded_closed(self, blocked: Seq<bool>, visited: Seq<bool>, p: Seq<int>)
        requires
            self.wf(),
            blocked.len() == self.node_count(),
            visited.len() == self.node_count(),
            self.guarded_path(blocked, p),
            forall|b: int|
                #[trigger] self.has_edge(p.first(), b) && 0 <= b < self.node_count()
                    && !blocked[b] ==> visited[b],
            forall|a: int, b: int|
                0 <= a < self.node_count() && visited[a] && #[trigger] self.has_edge(a, b)
                    && 0 <= b < self.node_count() && !blocked[b] ==> visited[b],
        ensures
            visited[p.last()],
        decreases p.len(),
    {
        if p.len() == 2 {
            assert(p.first() == p[0] && p.last() == p[1]);
            assert(self.has_edge(p.first(), p[1]));
            assert(0 <= p[1] < self.node_count());
            assert(!blocked[p[1]]);
            assert(visited[p[1]]);
        } else {
            let q = p.drop_last();
            assert(q.len() == p.len() - 1);
            assert(forall|i: int| 0 <= i < q.len() ==> q[i] == p[i]);
            assert(q.first() == p.first());
            assert(self.guarded_path(blocked, q));
            assert forall|b: int|
                #[trigger] self.has_edge(q.first(), b) && 0 <= b < self.node_count()
                    && !blocked[b] implies visited[b] by {
                assert(self.has_edge(p.first(), b));
            }
            self.lemma_guarded_closed(blocked, visited, q);
            assert(self.has_edge(p[p.len() - 2], p[p.len() - 1]));
            assert(!blocked[p[p.len() - 1]]);
        }
    }

    /// Every node reachable from `start` by at least one edge without
    /// touching a blocked node after leaving `start`, each exactly once.
    /// `start` itself appears only if an all-unblocked cycle returns to it.
    pub fn reachable_from_avoiding(&self, start: usize, blocked: &Vec<bool>) -> (r: Vec<usize>)
        requires
            self.wf(),
            (start as int) < self.node_count(),
            blocked@.len() == self.node_count(),
        ensures
            r@.no_duplicates(),
            forall|m: usize| r@.contains(m) ==> (m as int) < self.node_count()
                && !blocked@[m as int],
            forall|m: usize| #![trigger r@.contains(m)]
                (m as int) < self.node_count()
                    ==> (r@.contains(m) <==> self.propagates_to(
                        blocked@,
                        start as int,
                        m as int,
                    )),
    {
        let n: usize = self.ids.len();
        let mut visited: Vec<bool> = Vec::new();
        for z in 0..n
            invariant
                visited@.len() == z,
                forall|m: int| 0 <= m < z ==> !visited@[m],
        {
            visited.push(false);
        }
        let mut order: Vec<usize> = Vec::new();
        // Expand the start node's own edges first; the start node does not
        // enter the result through them.
        let row = &self.edges[start];
        let m0: usize = row.len();
        let mut k: usize = 0;
        while k < m0
            invariant
                self.wf(),
                n == self.node_count(),
                (start as int) < n,
                blocked@.len() == n,
                visited@.len() == n,
                row@ == self.edges@[start as int]@,
                m0 == row@.len(),
                k <= m0,
                order@.no_duplicates(),
                order@.len() <= n,
                forall|kk: int| 0 <= kk < order@.len() ==> (#[trigger] order@[kk] as int) < n,
                forall|kk: int| 0 <= kk < order@.len() ==> !blocked@[#[trigger] order@[kk] as int],
                forall|mm: usize| (mm as int) < n ==> (visited@[mm as int] == order@.contains(mm)),
                forall|kk: int|
                    0 <= kk < order@.len() ==> self.propagates_to(
                        blocked@,
                        start as int,
                        #[trigger] order@[kk] as int,
                    ),
                forall|kk: int| #![trigger row@[kk]]
                    0 <= kk < k ==> (row@[kk].target as int) < n
                        && (!blocked@[row@[kk].target as int]
                        ==> visited@[row@[kk].target as int]),
            decreases m0 - k,
        {
            let t: usize = row[k].target;
            assert((t as int) < n) by {
                assert(self.edge_at(start as int, k as int).target < self.node_count());
            }
            if !blocked[t] && !visited[t] {
                let ghost prev = order@;
                visited.set(t, true);
                order.push(t);
                proof {
                    assert(order@ == prev.push(t));
                    assert(order@[prev.len() as int] == t);
                    assert(order@.contains(t));
                    assert(self.has_edge(start as int, t as int)) by {
                        assert(self.edge_at(start as int, k as int).target == t);
                    }
                    let pth = seq![start as int, t as int];
                    assert(pth.len() == 2 && pth.first() == start as int && pth.last()
                        == t as int);
                    assert forall|ii: int| 0 <= ii < pth.len() - 1 implies self.has_edge(
                        #[trigger] pth[ii],
                        pth[ii + 1],
                    ) by {
                        assert(pth[0] == start as int && pth[1] == t as int);
                    }
                    assert(self.guarded_path(blocked@, pth));
                    assert(self.propagates_to(blocked@, start as int, t as int));
                    assert(!prev.contains(t));
                    assert(order@.no_duplicates()) by {
                        assert forall|x: int, y: int|
                            0 <= x < y < order@.len() implies order@[x] != order@[y] by {
                            if y == order@.len() - 1 {
                                assert(prev.contains(prev[x]));
                            }
                        }
                    }
                    assert forall|mm: usize| (mm as int) < n implies (visited@[mm as int]
                        == order@.contains(mm)) by {
                        lemma_seq_contains_after_push(prev, t, mm);
                    }
                    lemma_distinct_bounded_len(order@, n as int);
                }
            }
            k += 1;
        }
        proof {
            assert forall|b: int|
                #[trigger] self.has_edge(start as int, b) && 0 <= b < n
                    && !blocked@[b] implies visited@[b] by {
                let kk = choose|kk: int|
                    0 <= kk < self.edge_count(start as int) && (#[trigger] self.edge_at(
                        start as int,
                        kk,
                    )).target == b;
                assert(row@[kk].target as int == b);
            }
        }
        let mut i: usize = 0;
        while i < order.len()
            invariant
                self.wf(),
                n == self.node_count(),
                (start as int) < n,
                blocked@.len() == n,
                visited@.len() == n,
                i <= order@.len(),
                order@.len() <= n,
                order@.no_duplicates(),
                forall|kk: int| 0 <= kk < order@.len() ==> (#[trigger] order@[kk] as int) < n,
                forall|kk: int| 0 <= kk < order@.len() ==> !blocked@[#[trigger] order@[kk] as int],
                forall|mm: usize| (mm as int) < n ==> (visited@[mm as int] == order@.contains(mm)),
                forall|kk: int|
                    0 <= kk < order@.len() ==> self.propagates_to(
                        blocked@,
                        start as int,
                        #[trigger] order@[kk] as int,
                    ),
                forall|b: int|
                    #[trigger] self.has_edge(start as int, b) && 0 <= b < n && !blocked@[b]
                        ==> visited@[b],
                forall|a: int, b: int|
                    0 <= a < i && #[trigger] self.has_edge(order@[a] as int, b) && 0 <= b < n
                        && !blocked@[b] ==> visited@[b],
            decreases n - order@.len(), order@.len() - i,
        {
            let node: usize = order[i];
            let row = &self.edges[node];
            let m: usize = row.len();
            let ghost order_start_len = order@.len();
            let mut k: usize = 0;
            while k < m
                invariant
                    self.wf(),
                    n == self.node_count(),
                    (start as int) < n,
                    blocked@.len() == n,
                    visited@.len() == n,
                    i < order@.len(),
                    order@.len() <= n,
                    order@.no_duplicates(),
                    forall|kk: int| 0 <= kk < order@.len() ==> (#[trigger] order@[kk] as int) < n,
                    forall|kk: int|
                        0 <= kk < order@.len() ==> !blocked@[#[trigger] order@[kk] as int],
                    forall|mm: usize| (mm as int) < n
                        ==> (visited@[mm as int] == order@.contains(mm)),
                    forall|kk: int|
                        0 <= kk < order@.len() ==> self.propagates_to(
                            blocked@,
                            start as int,
                            #[trigger] order@[kk] as int,
                        ),
                    forall|b: int|
                        #[trigger] self.has_edge(start as int, b) && 0 <= b < n && !blocked@[b]
                            ==> visited@[b],
                    forall|a: int, b: int|
                        0 <= a < i && #[trigger] self.has_edge(order@[a] as int, b) && 0 <= b < n
                            && !blocked@[b] ==> visited@[b],
                    node == order@[i as int],
                    (node as int) < n,
                    row@ == self.edges@[node as int]@,
                    m == row@.len(),
                    k <= m,
                    order_start_len <= order@.len(),
                    forall|kk: int| #![trigger row@[kk]]
                        0 <= kk < k ==> (row@[kk].target as int) < n
                            && (!blocked@[row@[kk].target as int]
                            ==> visited@[row@[kk].target as int]),
                decreases m - k,
            {
                let t: usize = row[k].target;
                assert((t as int) < n) by {
                    assert(self.edge_at(node as int, k as int).target < self.node_count());
                }
                if !blocked[t] && !visited[t] {
                    let ghost prev = order@;
                    visited.set(t, true);
                    order.push(t);
                    proof {
                        assert(order@ == prev.push(t));
                        assert(order@[prev.len() as int] == t);
                        assert(order@.contains(t));
                        assert(self.has_edge(node as int, t as int)) by {
                            assert(self.edge_at(node as int, k as int).target == t);
                        }
                        assert(self.propagates_to(blocked@, start as int, node as int));
                        self.lemma_propagates_step(
                            blocked@,
                            start as int,
                            node as int,
                            t as int,
                        );
                        assert(!prev.contains(t));
                        assert(order@.no_duplicates()) by {
                            assert forall|x: int, y: int|
                                0 <= x < y < order@.len() implies order@[x] != order@[y] by {
                                if y == order@.len() - 1 {
                                    assert(prev.contains(prev[x]));
                                }
                            }
                        }
                        assert forall|mm: usize| (mm as int) < n implies (visited@[mm as int]
                            == order@.contains(mm)) by {
                            lemma_seq_contains_after_push(prev, t, mm);
                        }
                        lemma_distinct_bounded_len(order@, n as int);
                    }
                }
                k += 1;
            }
            proof {
                assert forall|a: int, b: int|
                    0 <= a < i + 1 && #[trigger] self.has_edge(order@[a] as int, b) && 0 <= b < n
                        && !blocked@[b] implies visited@[b] by {
                    if a == i {
                        let kk = choose|kk: int|
                            0 <= kk < self.edge_count(node as int) && (#[trigger] self.edge_at(
                                node as int,
                                kk,
                            )).target == b;
                        assert(row@[kk].target as int == b);
                    }
                }
            }
            i += 1;
        }
        proof {
            assert forall|m: usize|
                (m as int) < self.node_count() && self.propagates_to(
                    blocked@,
                    start as int,
                    m as int,
                ) implies order@.contains(m) by {
                let p = choose|p: Seq<int>|
                    self.guarded_path(blocked@, p) && p.first() == start as int && p.last()
                        == m as int;
                assert forall|a: int, b: int|
                    0 <= a < self.node_count() && visited@[a] && #[trigger] self.has_edge(
                        a,
                        b,
                    ) && 0 <= b < self.node_count() && !blocked@[b] implies visited@[b] by {
                    let au = a as usize;
                    assert(visited@[au as int]);
                    assert(order@.contains(au));
                    let idx = choose|idx: int| 0 <= idx < order@.len() && order@[idx] == au;
                    assert(self.has_edge(order@[idx] as int, b));
                }
                self.lemma_guarded_closed(blocked@, visited@, p);
                assert(visited@[m as int]);
            }
            assert forall|m: usize| order@.contains(m) implies (m as int) < self.node_count()
                && !blocked@[m as int] by {
                let k = choose|k: int| 0 <= k < order@.len() && order@[k] == m;
            }
            assert forall|m: usize|
                (m as int) < self.node_count() && order@.contains(m) implies self.propagates_to(
                blocked@,
                start as int,
                m as int,
            ) by {
                let k = choose|k: int| 0 <= k < order@.len() && order@[k] == m;
            }
        }
        order
    }
}

/// First index in `ids` holding the identifier `id`, if any.
fn find_id(ids: &Vec<String>, id: &String) -> (r: Option<usize>)
    ensures
        match r {
            Some(i) => (i as int) < ids@.len() && ids@[i as int]@ == id@,
            None => forall|j: int| 0 <= j < ids@.len() ==> ids@[j]@ != id@,
        },
{
    let n: usize = ids.len();
    let mut j: usize = 0;
    while j < n
        invariant
            n == ids@.len(),
            j <= n,
            forall|jj: int| 0 <= jj < j ==> ids@[jj]@ != id@,
        decreases n - j,
    {
        if ids[j] == *id {
            return Some(j);
        }
        j += 1;
    }
    None
}

} // verus!

use spog::graph::{ProductGraph, ProductNode, ProductRelation, RelationshipKind};
use spog::resolve::{resolve, ProductCveAssertion, StatusMap};
use spog::status::ProductCveStatus;
use spog::Error;

fn node(id: &str, relations: Vec<(RelationshipKind, &str)>) -> ProductNode {
    ProductNode {
        id: id.to_string(),
        relations: relations
            .into_iter()
            .map(|(kind, target)| ProductRelation {
                kind,
                target: target.to_string(),
            })
            .collect(),
    }
}

fn asserted(product: &str, status: ProductCveStatus) -> ProductCveAssertion {
    ProductCveAssertion {
        product: product.to_string(),
        status,
    }
}

fn status_of(map: &StatusMap, g: &ProductGraph, id: &str) -> Option<ProductCveStatus> {
    map.status_of(g, &id.to_string())
}

/// The chain used by the propagation scenarios:
/// `A --DefaultComponentOf--> B --InstalledOn--> C`.
fn chain() -> ProductGraph {
    let tree = vec![
        node("A", vec![(RelationshipKind::DefaultComponentOf, "B")]),
        node("B", vec![(RelationshipKind::InstalledOn, "C")]),
        node("C", vec![]),
    ];
    ProductGraph::build(&tree).expect("well-formed tree")
}

#[test]
fn chain_inherits_fixed_from_root() {
    let g = chain();
    let map = resolve(&g, &vec![asserted("A", ProductCveStatus::Fixed)]).expect("resolves");
    assert_eq!(status_of(&map, &g, "A"), Some(ProductCveStatus::Fixed));
    assert_eq!(status_of(&map, &g, "B"), Some(ProductCveStatus::Fixed));
    assert_eq!(status_of(&map, &g, "C"), Some(ProductCveStatus::Fixed));
}

#[test]
fn direct_assertion_overrides_inheritance_along_the_chain() {
    let g = chain();
    let map = resolve(
        &g,
        &vec![
            asserted("A", ProductCveStatus::Fixed),
            asserted("B", ProductCveStatus::KnownAffected),
        ],
    )
    .expect("resolves");
    // B keeps its own assertion; C inherits from B, its nearest direct
    // assertion, not from A.
    assert_eq!(status_of(&map, &g, "A"), Some(ProductCveStatus::Fixed));
    assert_eq!(status_of(&map, &g, "B"), Some(ProductCveStatus::KnownAffected));
    assert_eq!(status_of(&map, &g, "C"), Some(ProductCveStatus::KnownAffected));
}

#[test]
fn direct_assertion_survives_stronger_inherited_status() {
    let tree = vec![
        node("A", vec![(RelationshipKind::DefaultComponentOf, "B")]),
        node("B", vec![]),
    ];
    let g = ProductGraph::build(&tree).expect("well-formed tree");
    let map = resolve(
        &g,
        &vec![
            asserted("A", ProductCveStatus::Fixed),
            asserted("B", ProductCveStatus::UnderInvestigation),
        ],
    )
    .expect("resolves");
    assert_eq!(
        status_of(&map, &g, "B"),
        Some(ProductCveStatus::UnderInvestigation),
        "a direct assertion must not be displaced by an inherited one"
    );
}

#[test]
fn competing_inherited_statuses_resolve_by_precedence() {
    let tree = vec![
        node("A", vec![(RelationshipKind::InstalledOn, "C")]),
        node("B", vec![(RelationshipKind::InstalledOn, "C")]),
        node("C", vec![]),
    ];
    let g = ProductGraph::build(&tree).expect("well-formed tree");
    let map = resolve(
        &g,
        &vec![
            asserted("A", ProductCveStatus::KnownAffected),
            asserted("B", ProductCveStatus::Fixed),
        ],
    )
    .expect("resolves");
    // Fixed is earlier in the precedence order than KnownAffected.
    assert_eq!(status_of(&map, &g, "C"), Some(ProductCveStatus::Fixed));

    let map2 = resolve(
        &g,
        &vec![
            asserted("A", ProductCveStatus::Recommended),
            asserted("B", ProductCveStatus::UnderInvestigation),
        ],
    )
    .expect("resolves");
    assert_eq!(status_of(&map2, &g, "C"), Some(ProductCveStatus::Recommended));
}

#[test]
fn empty_assertion_set_resolves_to_empty_mapping() {
    let g = chain();
    let map = resolve(&g, &vec![]).expect("empty assertions are not an error");
    assert_eq!(status_of(&map, &g, "A"), None);
    assert_eq!(status_of(&map, &g, "B"), None);
    assert_eq!(status_of(&map, &g, "C"), None);
}

#[test]
fn unaffected_disconnected_node_is_omitted() {
    let tree = vec![
        node("A", vec![(RelationshipKind::DefaultComponentOf, "B")]),
        node("B", vec![]),
        node("island", vec![]),
    ];
    let g = ProductGraph::build(&tree).expect("well-formed tree");
    let map = resolve(&g, &vec![asserted("A", ProductCveStatus::Fixed)]).expect("resolves");
    assert_eq!(status_of(&map, &g, "island"), None);
}

#[test]
fn assertion_on_unknown_product_is_malformed_input() {
    let g = chain();
    let err = resolve(&g, &vec![asserted("ghost", ProductCveStatus::Fixed)]).unwrap_err();
    assert_eq!(err, Error::MalformedInput);
}

#[test]
fn resolving_twice_yields_identical_mapping() {
    let g = chain();
    let assertions = vec![
        asserted("A", ProductCveStatus::Fixed),
        asserted("B", ProductCveStatus::KnownAffected),
    ];
    let first = resolve(&g, &assertions).expect("resolves");
    let second = resolve(&g, &assertions).expect("resolves");
    for id in ["A", "B", "C"] {
        assert_eq!(status_of(&first, &g, id), status_of(&second, &g, id));
    }
    assert_eq!(first.len(), second.len());
}

#[test]
fn propagation_does_not_cross_a_directly_asserted_node() {
    // A -> B -> C with a direct assertion on B: C must not see A's status
    // through B, and a second path around B still reaches C.
    let tree = vec![
        node(
            "A",
            vec![
                (RelationshipKind::DefaultComponentOf, "B"),
                (RelationshipKind::InstalledWith, "C"),
            ],
        ),
        node("B", vec![(RelationshipKind::InstalledOn, "C")]),
        node("C", vec![]),
    ];
    let g = ProductGraph::build(&tree).expect("well-formed tree");
    let map = resolve(
        &g,
        &vec![
            asserted("A", ProductCveStatus::Fixed),
            asserted("B", ProductCveStatus::KnownAffected),
        ],
    )
    .expect("resolves");
    // C inherits both A's status (direct edge) and B's status; Fixed wins by
    // precedence.
    assert_eq!(status_of(&map, &g, "C"), Some(ProductCveStatus::Fixed));
}

#[test]
fn resolution_is_cycle_safe() {
    let tree = vec![
        node("A", vec![(RelationshipKind::DefaultComponentOf, "B")]),
        node("B", vec![(RelationshipKind::InstalledOn, "A")]),
    ];
    let g = ProductGraph::build(&tree).expect("well-formed tree");
    let map = resolve(&g, &vec![asserted("A", ProductCveStatus::LastAffected)]).expect("resolves");
    assert_eq!(status_of(&map, &g, "A"), Some(ProductCveStatus::LastAffected));
    assert_eq!(status_of(&map, &g, "B"), Some(ProductCveStatus::LastAffected));
}

use spog::graph::{ProductGraph, ProductNode, ProductRelation, RelationshipKind};
use spog::Error;

fn node(id: &str, relations: Vec<(RelationshipKind, &str)>) -> ProductNode {
    ProductNode {
        id: id.to_string(),
        relations: relations
            .into_iter()
            .map(|(kind, target)| ProductRelation {
                kind,
                target: target.to_string(),
            })
            .collect(),
    }
}

fn reachable_ids(g: &ProductGraph, start: &str) -> Vec<String> {
    let i = g.index_of(&start.to_string()).expect("start id");
    let mut ids: Vec<String> = g
        .reachable_from(i)
        .into_iter()
        .map(|j| g.id(j).clone())
        .collect();
    ids.sort();
    ids
}

#[test]
fn build_resolves_relationship_targets() {
    let tree = vec![
        node("A", vec![(RelationshipKind::DefaultComponentOf, "B")]),
        node("B", vec![(RelationshipKind::InstalledOn, "C")]),
        node("C", vec![]),
    ];
    let g = ProductGraph::build(&tree).expect("well-formed tree");
    assert_eq!(g.len(), 3);
    assert_eq!(g.index_of(&"A".to_string()), Some(0));
    assert_eq!(g.index_of(&"C".to_string()), Some(2));
    assert_eq!(g.index_of(&"missing".to_string()), None);
}

#[test]
fn build_rejects_unknown_relationship_target() {
    let tree = vec![
        node("A", vec![(RelationshipKind::InstalledOn, "ghost")]),
        node("B", vec![]),
    ];
    assert_eq!(ProductGraph::build(&tree).unwrap_err(), Error::MalformedInput);
}

#[test]
fn build_rejects_duplicate_product_id() {
    let tree = vec![node("A", vec![]), node("A", vec![])];
    assert_eq!(ProductGraph::build(&tree).unwrap_err(), Error::MalformedInput);
}

#[test]
fn neighbors_filters_by_relationship_kind() {
    let tree = vec![
        node(
            "A",
            vec![
                (RelationshipKind::DefaultComponentOf, "B"),
                (RelationshipKind::InstalledOn, "C"),
                (RelationshipKind::DefaultComponentOf, "C"),
            ],
        ),
        node("B", vec![]),
        node("C", vec![]),
    ];
    let g = ProductGraph::build(&tree).expect("well-formed tree");
    let all = g.neighbors(0, None);
    assert_eq!(all, vec![1, 2, 2]);
    let defaults = g.neighbors(0, Some(RelationshipKind::DefaultComponentOf));
    assert_eq!(defaults, vec![1, 2]);
    let installed = g.neighbors(0, Some(RelationshipKind::InstalledOn));
    assert_eq!(installed, vec![2]);
    let variants = g.neighbors(0, Some(RelationshipKind::VariantOf));
    assert!(variants.is_empty());
}

#[test]
fn reachable_from_is_transitive_closure_without_cycles() {
    let tree = vec![
        node(
            "A",
            vec![
                (RelationshipKind::DefaultComponentOf, "B"),
                (RelationshipKind::InstalledWith, "C"),
            ],
        ),
        node("B", vec![(RelationshipKind::InstalledOn, "D")]),
        node("C", vec![]),
        node("D", vec![]),
        node("E", vec![(RelationshipKind::VariantOf, "A")]),
    ];
    let g = ProductGraph::build(&tree).expect("well-formed tree");
    // E points at A but is not reachable from A.
    assert_eq!(reachable_ids(&g, "A"), vec!["A", "B", "C", "D"]);
    assert_eq!(reachable_ids(&g, "B"), vec!["B", "D"]);
    assert_eq!(reachable_ids(&g, "E"), vec!["A", "B", "C", "D", "E"]);
}

#[test]
fn reachable_from_terminates_on_cycles_without_duplicates() {
    let tree = vec![
        node("A", vec![(RelationshipKind::DefaultComponentOf, "B")]),
        node("B", vec![(RelationshipKind::InstalledOn, "A")]),
        node("C", vec![(RelationshipKind::VariantOf, "C")]),
    ];
    let g = ProductGraph::build(&tree).expect("well-formed tree");
    let from_a = g.reachable_from(0);
    assert_eq!(from_a.len(), 2);
    let mut sorted = from_a.clone();
    sorted.sort();
    sorted.dedup();
    assert_eq!(sorted.len(), 2, "no node may appear twice");
    assert_eq!(reachable_ids(&g, "A"), vec!["A", "B"]);
    // a self-loop is also cycle-safe
    assert_eq!(reachable_ids(&g, "C"), vec!["C"]);
}

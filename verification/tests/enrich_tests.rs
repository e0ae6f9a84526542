use spog::enrich::{concurrency_batches, merge_advisory_counts, SearchHit};

fn hit(id: &str, cpe: Option<&str>) -> SearchHit {
    SearchHit {
        id: id.to_string(),
        name: format!("{id}-name"),
        version: Some("1.0".to_string()),
        supplier: "Acme".to_string(),
        cpe: cpe.map(|c| c.to_string()),
        purl: None,
        href: format!("/api/v1/sbom?id={id}"),
        advisories: None,
    }
}

#[test]
fn advisories_query_derived_from_cpe() {
    let h = hit("s1", Some("cpe:/a:redhat:openshift:4"));
    assert_eq!(
        h.advisories_query(),
        Some("fixed:\"cpe:/a:redhat:openshift:4\"".to_string())
    );
}

#[test]
fn advisories_query_absent_without_cpe() {
    let h = hit("s1", None);
    assert_eq!(h.advisories_query(), None);
}

#[test]
fn merge_keeps_order_and_tolerates_one_failure() {
    let hits = vec![hit("s1", Some("c1")), hit("s2", Some("c2")), hit("s3", Some("c3"))];
    // the query for the middle entity failed: its count stays absent, the
    // batch is neither aborted nor reordered
    let counts = vec![Some(5u64), None, Some(7u64)];
    let merged = merge_advisory_counts(hits, &counts);
    assert_eq!(merged.len(), 3);
    assert_eq!(merged[0].id, "s1");
    assert_eq!(merged[0].advisories, Some(5));
    assert_eq!(merged[1].id, "s2");
    assert_eq!(merged[1].advisories, None);
    assert_eq!(merged[2].id, "s3");
    assert_eq!(merged[2].advisories, Some(7));
    // other fields are untouched
    assert_eq!(merged[1].name, "s2-name");
    assert_eq!(merged[1].cpe, Some("c2".to_string()));
}

#[test]
fn merge_of_empty_batch_is_empty() {
    let merged = merge_advisory_counts(vec![], &vec![]);
    assert!(merged.is_empty());
}

#[test]
fn batches_tile_the_work_in_order() {
    assert_eq!(concurrency_batches(10, 4), vec![(0, 4), (4, 8), (8, 10)]);
    assert_eq!(concurrency_batches(8, 4), vec![(0, 4), (4, 8)]);
    assert_eq!(concurrency_batches(3, 4), vec![(0, 3)]);
    assert_eq!(concurrency_batches(0, 4), vec![]);
    assert_eq!(concurrency_batches(2, 1), vec![(0, 1), (1, 2)]);
}

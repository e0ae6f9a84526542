use spog::products::{attach_sboms, table_rows, PackageRelatedToProductCve, ProductRelatedToCve};
use spog::status::ProductCveStatus;

fn product(sbom_id: &str, purls: Vec<&str>) -> ProductRelatedToCve {
    ProductRelatedToCve {
        sbom_id: sbom_id.to_string(),
        packages: purls
            .into_iter()
            .map(|p| PackageRelatedToProductCve {
                purl: p.to_string(),
            })
            .collect(),
    }
}

#[test]
fn table_rows_flatten_groups_in_order() {
    let rows = table_rows(vec![
        (
            ProductCveStatus::Fixed,
            vec![product("sbom-a", vec!["pkg:a1", "pkg:a2"]), product("sbom-b", vec![])],
        ),
        (
            ProductCveStatus::KnownAffected,
            vec![product("sbom-c", vec!["pkg:c1"])],
        ),
    ]);
    assert_eq!(rows.len(), 3);
    assert_eq!(rows[0].sbom_id, "sbom-a");
    assert_eq!(rows[0].status, ProductCveStatus::Fixed);
    assert_eq!(rows[0].packages.len(), 2);
    assert_eq!(rows[0].packages[1].purl, "pkg:a2");
    assert!(rows[0].sbom.is_none());
    assert_eq!(rows[1].sbom_id, "sbom-b");
    assert_eq!(rows[1].status, ProductCveStatus::Fixed);
    assert!(rows[1].packages.is_empty());
    assert_eq!(rows[2].sbom_id, "sbom-c");
    assert_eq!(rows[2].status, ProductCveStatus::KnownAffected);
}

#[test]
fn table_rows_of_no_products_is_empty() {
    assert!(table_rows(vec![]).is_empty());
}

#[test]
fn attach_sboms_pairs_rows_by_position() {
    let rows = table_rows(vec![(
        ProductCveStatus::Fixed,
        vec![product("sbom-a", vec![]), product("sbom-b", vec![])],
    )]);
    let attached = attach_sboms(rows, vec![Some("doc-a".to_string()), None]);
    assert_eq!(attached.len(), 2);
    assert_eq!(attached[0].sbom, Some("doc-a".to_string()));
    assert_eq!(attached[0].sbom_id, "sbom-a");
    assert_eq!(attached[1].sbom, None);
    assert_eq!(attached[1].sbom_id, "sbom-b");
}

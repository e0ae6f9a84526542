use spog::sbom_search::{
    sboms_with_vulnerability_summary, search, trim_supplier, SbomDocument, Vulnerabilities,
};

fn doc(id: &str, supplier: &str, cpe: Option<&str>) -> SbomDocument {
    SbomDocument {
        id: id.to_string(),
        name: format!("{id}-name"),
        version: Some("2.4".to_string()),
        supplier: supplier.to_string(),
        cpe: cpe.map(|c| c.to_string()),
        purl: None,
    }
}

#[test]
fn trim_supplier_strips_organization_marker() {
    assert_eq!(trim_supplier("Organization: Red Hat"), "Red Hat");
    assert_eq!(trim_supplier("Acme"), "Acme");
    assert_eq!(trim_supplier(""), "");
    // the marker is stripped as often as it leads
    assert_eq!(trim_supplier("Organization: Organization: X"), "X");
    // only a leading marker is stripped
    assert_eq!(trim_supplier("By Organization: X"), "By Organization: X");
}

#[test]
fn search_maps_documents_to_hits_in_order() {
    let docs = vec![
        doc("s1", "Organization: Red Hat", Some("cpe:/a:x")),
        doc("s2", "Acme", None),
    ];
    let r = search(&docs, 17);
    assert_eq!(r.total, Some(17));
    assert_eq!(r.result.len(), 2);
    assert_eq!(r.result[0].id, "s1");
    assert_eq!(r.result[0].name, "s1-name");
    assert_eq!(r.result[0].version, Some("2.4".to_string()));
    assert_eq!(r.result[0].supplier, "Red Hat");
    assert_eq!(r.result[0].href, "/api/v1/sbom?id=s1");
    assert_eq!(r.result[0].cpe, Some("cpe:/a:x".to_string()));
    assert_eq!(r.result[0].advisories, None);
    assert_eq!(r.result[1].id, "s2");
    assert_eq!(r.result[1].supplier, "Acme");
    assert_eq!(r.result[1].href, "/api/v1/sbom?id=s2");
    assert_eq!(r.result[1].cpe, None);
}

#[test]
fn vulnerability_summary_serves_ten_sboms() {
    let summary = sboms_with_vulnerability_summary();
    assert_eq!(summary.len(), 10);
    assert_eq!(summary[0].sbom_id, "sbom1_id");
    assert_eq!(summary[0].sbom_name, "sbom1");
    assert_eq!(
        summary[0].vulnerabilities,
        Vulnerabilities {
            none: 3,
            low: 12,
            medium: 8,
            high: 5,
            critical: 1,
        }
    );
    assert_eq!(summary[1].sbom_id, "sbom2_id");
    assert_eq!(
        summary[1].vulnerabilities,
        Vulnerabilities {
            none: 1,
            low: 8,
            medium: 17,
            high: 9,
            critical: 0,
        }
    );
    for (i, entry) in summary.iter().enumerate().skip(2) {
        assert_eq!(entry.sbom_id, format!("sbom{}_id", i + 1));
        assert_eq!(entry.sbom_name, format!("sbom{}", i + 1));
        assert_eq!(
            entry.vulnerabilities,
            Vulnerabilities {
                none: 18,
                low: 20,
                medium: 6,
                high: 8,
                critical: 4,
            }
        );
    }
}

#[test]
fn severity_buckets_sum_to_the_total() {
    let summary = sboms_with_vulnerability_summary();
    assert_eq!(summary[0].vulnerabilities.total(), 3 + 12 + 8 + 5 + 1);
    assert_eq!(summary[1].vulnerabilities.total(), 1 + 8 + 17 + 9 + 0);
    assert_eq!(summary[9].vulnerabilities.total(), 18 + 20 + 6 + 8 + 4);
}

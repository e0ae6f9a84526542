//! SBOM search results: maps the raw documents returned by the index
//! service into the search hits delivered to callers, and the demo
//! per-SBOM vulnerability rollup.

use vstd::prelude::*;
use crate::enrich::SearchHit;

verus! {

/// A raw SBOM document row as the index service returns it.
#[derive(Clone, Debug)]
pub struct SbomDocument {
    pub id: String,
    pub name: String,
    pub version: Option<String>,
    pub supplier: String,
    pub cpe: Option<String>,
    pub purl: Option<String>,
}

/// The supplier field with every leading "Organization: " marker removed.
pub open spec fn spec_strip_org(s: Seq<char>) -> Seq<char>
    decreases s.len(),
{
    if s.len() >= 14 && s.subrange(0, 14) == "Organization: "@ {
        spec_strip_org(s.subrange(14, s.len() as int))
    } else {
        s
    }
}

/// The download reference for an SBOM document.
pub open spec fn spec_href(id: Seq<char>) -> Seq<char> {
    "/api/v1/sbom?id="@ + id
}

/// Removes every leading "Organization: " marker from a supplier name.
pub fn trim_supplier(s: &str) -> (r: String)
    ensures
        r@ == spec_strip_org(s@),
{
    proof {
        reveal_strlit("Organization: ");
    }
    let mut cur: String = s.to_owned();
    let mut done: bool = false;
    while !done
        invariant
            spec_strip_org(cur@) == spec_strip_org(s@),
            done ==> spec_strip_org(cur@) == cur@,
        decreases cur@.len(), (if done { 0int } else { 1int }),
    {
        let l: usize = cur.as_str().unicode_len();
        if l >= 14 {
            let pre = cur.as_str().substring_char(0, 14).to_owned();
            let pat = "Organization: ".to_owned();
            if pre == pat {
                let next = cur.as_str().substring_char(14, l).to_owned();
                proof {
                    assert(cur@.subrange(0, 14) == "Organization: "@);
                    assert(next@ == cur@.subrange(14, cur@.len() as int));
                    assert(spec_strip_org(cur@) == spec_strip_org(next@));
                }
                cur = next;
            } else {
                proof {
                    assert(cur@.subrange(0, 14) != "Organization: "@);
                    assert(spec_strip_org(cur@) == cur@);
                }
                done = true;
            }
        } else {
            proof {
                assert(spec_strip_org(cur@) == cur@);
            }
            done = true;
        }
    }
    cur
}

/// `hit` is the search hit derived from `doc`: identifying fields carried
/// over, the supplier trimmed of its "Organization: " marker, the download
/// reference built from the id, and no advisory count yet.
pub open spec fn hit_matches(doc: SbomDocument, hit: SearchHit) -> bool {
    &&& hit.id@ == doc.id@
    &&& hit.name@ == doc.name@
    &&& match (hit.version, doc.version) {
        (Some(a), Some(b)) => a@ == b@,
        (None, None) => true,
        _ => false,
    }
    &&& hit.supplier@ == spec_strip_org(doc.supplier@)
    &&& match (hit.cpe, doc.cpe) {
        (Some(a), Some(b)) => a@ == b@,
        (None, None) => true,
        _ => false,
    }
    &&& match (hit.purl, doc.purl) {
        (Some(a), Some(b)) => a@ == b@,
        (None, None) => true,
        _ => false,
    }
    &&& hit.href@ == spec_href(doc.id@)
    &&& hit.advisories is None
}

/// Copies an optional string.
fn clone_opt_string(s: &Option<String>) -> (r: Option<String>)
    ensures
        match (r, s) {
            (Some(a), Some(b)) => a@ == b@,
            (None, None) => true,
            _ => false,
        },
{
    match s {
        Some(v) => Some(v.clone()),
        None => None,
    }
}

/// Builds the search hit for one raw document.
pub fn search_hit_from(doc: &SbomDocument) -> (r: SearchHit)
    ensures
        hit_matches(*doc, r),
{
    let mut href = "/api/v1/sbom?id=".to_owned();
    href.append(doc.id.as_str());
    SearchHit {
        id: doc.id.clone(),
        name: doc.name.clone(),
        version: clone_opt_string(&doc.version),
        supplier: trim_supplier(doc.supplier.as_str()),
        cpe: clone_opt_string(&doc.cpe),
        purl: clone_opt_string(&doc.purl),
        href,
        advisories: None,
    }
}

/// A page of search results: the total the index reports and the hits of
/// this page.
#[derive(Clone, Debug)]
pub struct SearchResponse {
    pub total: Option<u64>,
    pub result: Vec<SearchHit>,
}

/// Maps a page of raw documents into the search response delivered to
/// callers: one hit per document, in document order, each awaiting its
/// advisory count from the enrichment fan-out.
pub fn search(docs: &Vec<SbomDocument>, total: u64) -> (r: SearchResponse)
    ensures
        r.total == Some(total),
        r.result@.len() == docs@.len(),
        forall|i: int|
            0 <= i < docs@.len() ==> hit_matches(docs@[i], #[trigger] r.result@[i]),
{
    let n: usize = docs.len();
    let mut hits: Vec<SearchHit> = Vec::new();
    let mut i: usize = 0;
    while i < n
        invariant
            n == docs@.len(),
            i <= n,
            hits@.len() == i,
            forall|j: int| 0 <= j < i ==> hit_matches(docs@[j], #[trigger] hits@[j]),
        decreases n - i,
    {
        hits.push(search_hit_from(&docs[i]));
        i += 1;
    }
    SearchResponse { total: Some(total), result: hits }
}

/// Severity-bucketed counts of the CVEs affecting one SBOM.
#[derive(Clone, Copy, Debug, PartialEq, Eq, Structural)]
pub struct Vulnerabilities {
    pub none: usize,
    pub low: usize,
    pub medium: usize,
    pub high: usize,
    pub critical: usize,
}

impl Vulnerabilities {
    /// Sum of the severity buckets: the number of distinct CVEs considered
    /// for the SBOM.
    pub open spec fn spec_total(self) -> int {
        self.none + self.low + self.medium + self.high + self.critical
    }

    /// The buckets always sum to the total number of distinct CVEs
    /// considered for the SBOM.
    pub fn total(&self) -> (r: usize)
        requires
            self.spec_total() <= usize::MAX,
        ensures
            r as int == self.spec_total(),
    {
        self.none + self.low + self.medium + self.high + self.critical
    }
}

/// Per-SBOM vulnerability rollup: the SBOM and its severity buckets.
#[derive(Clone, Debug)]
pub struct SbomVulnerabilitySummary {
    pub sbom_id: String,
    pub sbom_name: String,
    pub vulnerabilities: Vulnerabilities,
}

/// The demo rollup of the last ten ingested SBOMs, as served to the
/// dashboard chart: two distinct profiles followed by eight SBOMs sharing
/// one profile.
pub fn sboms_with_vulnerability_summary() -> (r: Vec<SbomVulnerabilitySummary>)
    ensures
        r@.len() == 10,
        r@[0].sbom_id@ == "sbom1_id"@ && r@[0].sbom_name@ == "sbom1"@,
        r@[0].vulnerabilities == (Vulnerabilities {
            none: 3,
            low: 12,
            medium: 8,
            high: 5,
            critical: 1,
        }),
        r@[1].sbom_id@ == "sbom2_id"@ && r@[1].sbom_name@ == "sbom2"@,
        r@[1].vulnerabilities == (Vulnerabilities {
            none: 1,
            low: 8,
            medium: 17,
            high: 9,
            critical: 0,
        }),
        forall|i: int| #![trigger r@[i]]
            2 <= i < 10 ==> r@[i].vulnerabilities == (Vulnerabilities {
                none: 18,
                low: 20,
                medium: 6,
                high: 8,
                critical: 4,
            }),
        r@[2].sbom_id@ == "sbom3_id"@ && r@[2].sbom_name@ == "sbom3"@,
        r@[3].sbom_id@ == "sbom4_id"@ && r@[3].sbom_name@ == "sbom4"@,
        r@[4].sbom_id@ == "sbom5_id"@ && r@[4].sbom_name@ == "sbom5"@,
        r@[5].sbom_id@ == "sbom6_id"@ && r@[5].sbom_name@ == "sbom6"@,
        r@[6].sbom_id@ == "sbom7_id"@ && r@[6].sbom_name@ == "sbom7"@,
        r@[7].sbom_id@ == "sbom8_id"@ && r@[7].sbom_name@ == "sbom8"@,
        r@[8].sbom_id@ == "sbom9_id"@ && r@[8].sbom_name@ == "sbom9"@,
        r@[9].sbom_id@ == "sbom10_id"@ && r@[9].sbom_name@ == "sbom10"@,
{
    let vulns1 = Vulnerabilities { none: 3, low: 12, medium: 8, high: 5, critical: 1 };
    let vulns2 = Vulnerabilities { none: 1, low: 8, medium: 17, high: 9, critical: 0 };
    let vulns3 = Vulnerabilities { none: 18, low: 20, medium: 6, high: 8, critical: 4 };
    let mut summary: Vec<SbomVulnerabilitySummary> = Vec::new();
    summary.push(
        SbomVulnerabilitySummary {
            sbom_id: "sbom1_id".to_owned(),
            sbom_name: "sbom1".to_owned(),
            vulnerabilities: vulns1,
        },
    );
    summary.push(
        SbomVulnerabilitySummary {
            sbom_id: "sbom2_id".to_owned(),
            sbom_name: "sbom2".to_owned(),
            vulnerabilities: vulns2,
        },
    );
    summary.push(
        SbomVulnerabilitySummary {
            sbom_id: "sbom3_id".to_owned(),
            sbom_name: "sbom3".to_owned(),
            vulnerabilities: vulns3,
        },
    );
    summary.push(
        SbomVulnerabilitySummary {
            sbom_id: "sbom4_id".to_owned(),
            sbom_name: "sbom4".to_owned(),
            vulnerabilities: vulns3,
        },
    );
    summary.push(
        SbomVulnerabilitySummary {
            sbom_id: "sbom5_id".to_owned(),
            sbom_name: "sbom5".to_owned(),
            vulnerabilities: vulns3,
        },
    );
    summary.push(
        SbomVulnerabilitySummary {
            sbom_id: "sbom6_id".to_owned(),
            sbom_name: "sbom6".to_owned(),
            vulnerabilities: vulns3,
        },
    );
    summary.push(
        SbomVulnerabilitySummary {
            sbom_id: "sbom7_id".to_owned(),
            sbom_name: "sbom7".to_owned(),
            vulnerabilities: vulns3,
        },
    );
    summary.push(
        SbomVulnerabilitySummary {
            sbom_id: "sbom8_id".to_owned(),
            sbom_name: "sbom8".to_owned(),
            vulnerabilities: vulns3,
        },
    );
    summary.push(
        SbomVulnerabilitySummary {
            sbom_id: "sbom9_id".to_owned(),
            sbom_name: "sbom9".to_owned(),
            vulnerabilities: vulns3,
        },
    );
    summary.push(
        SbomVulnerabilitySummary {
            sbom_id: "sbom10_id".to_owned(),
            sbom_name: "sbom10".to_owned(),
            vulnerabilities: vulns3,
        },
    );
    summary
}

} // verus!

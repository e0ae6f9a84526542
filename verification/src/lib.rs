//! Advisory impact resolution and aggregation for CSAF security advisories.
//!
//! The crate walks the product-relationship graph of a CSAF advisory,
//! propagates per-product vulnerability statuses to every related product,
//! and aggregates advisory counts and document-store summaries for search
//! results and dashboard views.

pub mod dashboard;
pub mod enrich;
pub mod error;
pub mod graph;
pub mod products;
pub mod resolve;
pub mod sbom_search;
pub mod status;

pub use dashboard::{
    aggregate, get_date, summarize_rows, CveSummary, CSAFSummary, DashboardStatus, SbomSummary,
    SourceStatus, StatusRow, Timestamp,
};
pub use enrich::{concurrency_batches, merge_advisory_counts, SearchHit};
pub use error::Error;
pub use graph::{ProductGraph, ProductNode, ProductRelation, Relationship, RelationshipKind};
pub use products::{
    attach_sboms, table_rows, Column, PackageRelatedToProductCve, ProductRelatedToCve, TableData,
};
pub use resolve::{resolve, resolve_statuses, ProductCveAssertion, StatusAssertion, StatusMap};
pub use sbom_search::{
    sboms_with_vulnerability_summary, search, SbomDocument, SbomVulnerabilitySummary,
    SearchResponse, Vulnerabilities,
};
pub use status::{ProductCveStatus, StatusColor};

use spog::dashboard::{
    aggregate, get_date, summarize_rows, SourceStatus, StatusRow, Timestamp,
};

fn ts(year: u16, month: u8, day: u8, hour: u8, minute: u8, second: u8) -> Timestamp {
    Timestamp {
        year,
        month,
        day,
        hour,
        minute,
        second,
    }
}

fn source(total: Option<u64>, id: Option<&str>, name: Option<&str>, date: Option<Timestamp>) -> SourceStatus {
    SourceStatus {
        total,
        last_updated_id: id.map(|s| s.to_string()),
        last_updated_name: name.map(|s| s.to_string()),
        last_updated_date: date,
    }
}

#[test]
fn timestamp_formats_in_fixed_layout() {
    assert_eq!(ts(2023, 1, 15, 10, 30, 5).format(), "01-15-2023:10:30:05");
    assert_eq!(ts(4, 12, 31, 23, 59, 59).format(), "12-31-0004:23:59:59");
}

#[test]
fn timestamp_falls_back_to_default_representation() {
    // a month of 13 cannot be rendered in the fixed layout
    assert_eq!(ts(2023, 13, 15, 10, 30, 5).format(), "2023-13-15");
    // a day of zero cannot either
    assert_eq!(ts(2023, 1, 0, 0, 0, 0).format(), "2023-1-0");
}

#[test]
fn get_date_keeps_absence() {
    assert_eq!(get_date(None), None);
    assert_eq!(
        get_date(Some(ts(2024, 6, 2, 8, 0, 1))),
        Some("06-02-2024:08:00:01".to_string())
    );
}

#[test]
fn aggregate_merges_three_successful_stores() {
    // SBOM total 10, CSAF store empty (no total), CVE total 5
    let r = aggregate::<String>(
        Ok(source(Some(10), Some("s-id"), Some("s-name"), Some(ts(2023, 1, 15, 10, 30, 5)))),
        Ok(source(None, None, None, None)),
        Ok(source(Some(5), Some("CVE-2023-0001"), None, Some(ts(2023, 2, 1, 0, 0, 0)))),
    )
    .expect("all stores answered");
    assert_eq!(r.sbom_summary.total_sboms, Some(10));
    assert_eq!(r.sbom_summary.last_updated_sbom_id, Some("s-id".to_string()));
    assert_eq!(r.sbom_summary.last_updated_sbom_name, Some("s-name".to_string()));
    assert_eq!(
        r.sbom_summary.last_updated_date,
        Some("01-15-2023:10:30:05".to_string())
    );
    assert_eq!(r.csaf_summary.total_csafs, None);
    assert_eq!(r.csaf_summary.last_updated_csaf_id, None);
    assert_eq!(r.csaf_summary.last_updated_date, None);
    assert_eq!(r.cve_summary.total_cves, Some(5));
    assert_eq!(r.cve_summary.last_updated_cve, Some("CVE-2023-0001".to_string()));
    assert_eq!(
        r.cve_summary.last_updated_date,
        Some("02-01-2023:00:00:00".to_string())
    );
}

#[test]
fn aggregate_fails_as_a_whole_when_one_store_fails() {
    // the CVE summary query fails while SBOM and CSAF succeed: the whole
    // call fails, there is no two-of-three dashboard
    let r = aggregate(
        Ok(source(Some(10), None, None, None)),
        Ok(source(Some(3), None, None, None)),
        Err("cve store unreachable".to_string()),
    );
    assert_eq!(r.unwrap_err(), "cve store unreachable");
}

#[test]
fn aggregate_returns_the_first_failing_store_error() {
    let r = aggregate(
        Err("sbom down".to_string()),
        Ok(source(None, None, None, None)),
        Err("cve down".to_string()),
    );
    assert_eq!(r.unwrap_err(), "sbom down");
}

#[test]
fn summarize_rows_picks_the_most_recently_updated_row() {
    let rows = vec![
        StatusRow {
            id: "a".to_string(),
            name: "first".to_string(),
            updated: ts(2023, 1, 1, 0, 0, 0),
        },
        StatusRow {
            id: "b".to_string(),
            name: "newest".to_string(),
            updated: ts(2024, 5, 2, 12, 0, 0),
        },
        StatusRow {
            id: "c".to_string(),
            name: "middle".to_string(),
            updated: ts(2023, 7, 9, 3, 4, 5),
        },
    ];
    let s = summarize_rows(&rows, Some(3));
    assert_eq!(s.total, Some(3));
    assert_eq!(s.last_updated_id, Some("b".to_string()));
    assert_eq!(s.last_updated_name, Some("newest".to_string()));
    assert_eq!(s.last_updated_date, Some(ts(2024, 5, 2, 12, 0, 0)));
}

#[test]
fn summarize_rows_takes_the_first_of_tied_timestamps() {
    let when = ts(2024, 5, 2, 12, 0, 0);
    let rows = vec![
        StatusRow {
            id: "first-max".to_string(),
            name: "x".to_string(),
            updated: when,
        },
        StatusRow {
            id: "second-max".to_string(),
            name: "y".to_string(),
            updated: when,
        },
    ];
    let s = summarize_rows(&rows, None);
    assert_eq!(s.total, None);
    assert_eq!(s.last_updated_id, Some("first-max".to_string()));
}

#[test]
fn summarize_rows_of_empty_store_has_absent_fields() {
    let s = summarize_rows(&vec![], None);
    assert_eq!(s.total, None);
    assert_eq!(s.last_updated_id, None);
    assert_eq!(s.last_updated_name, None);
    assert_eq!(s.last_updated_date, None);
}

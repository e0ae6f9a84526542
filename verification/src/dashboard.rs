//! Dashboard aggregation: merges the summaries of the three independent
//! document stores (SBOM, CSAF/VEX, CVE) into one composite status. The
//! three queries are independent, but the composite is a single coherent
//! view: any one failure fails the whole call.

use vstd::prelude::*;

verus! {

/// A calendar timestamp held as plain fields, as reported by a document
/// store for its most recently updated row.
#[derive(Clone, Copy, Debug, PartialEq, Eq, Structural)]
pub struct Timestamp {
    pub year: u16,
    pub month: u8,
    pub day: u8,
    pub hour: u8,
    pub minute: u8,
    pub second: u8,
}

/// The decimal digit character for `d`.
pub open spec fn digit_char(d: int) -> char {
    if d == 0 {
        '0'
    } else if d == 1 {
        '1'
    } else if d == 2 {
        '2'
    } else if d == 3 {
        '3'
    } else if d == 4 {
        '4'
    } else if d == 5 {
        '5'
    } else if d == 6 {
        '6'
    } else if d == 7 {
        '7'
    } else if d == 8 {
        '8'
    } else {
        '9'
    }
}

/// `v` rendered as exactly two decimal digits, zero padded.
pub open spec fn two_digits(v: int) -> Seq<char> {
    seq![digit_char(v / 10), digit_char(v % 10)]
}

/// `v` rendered as exactly four decimal digits, zero padded.
pub open spec fn four_digits(v: int) -> Seq<char> {
    two_digits(v / 100) + two_digits(v % 100)
}

/// `v` rendered in plain decimal, without padding.
pub open spec fn dec_digits(v: int) -> Seq<char>
    decreases v,
{
    if v < 10 {
        seq![digit_char(v)]
    } else {
        dec_digits(v / 10) + seq![digit_char(v % 10)]
    }
}

impl Timestamp {
    /// Whether every field is within its calendar range.
    pub open spec fn well_formed(self) -> bool {
        &&& self.year <= 9999
        &&& 1 <= self.month <= 12
        &&& 1 <= self.day <= 31
        &&& self.hour <= 23
        &&& self.minute <= 59
        &&& self.second <= 59
    }

    /// The fixed dashboard display layout:
    /// month-day-year:hour:minute:second.
    pub open spec fn spec_fixed_layout(self) -> Seq<char> {
        two_digits(self.month as int) + "-"@ + two_digits(self.day as int) + "-"@ + four_digits(
            self.year as int,
        ) + ":"@ + two_digits(self.hour as int) + ":"@ + two_digits(self.minute as int) + ":"@
            + two_digits(self.second as int)
    }

    /// The default textual representation of the date part: year, month and
    /// day in plain decimal, separated by hyphens.
    pub open spec fn spec_default_layout(self) -> Seq<char> {
        dec_digits(self.year as int) + "-"@ + dec_digits(self.month as int) + "-"@ + dec_digits(
            self.day as int,
        )
    }

    /// What the dashboard shows for this timestamp: the fixed layout when
    /// the timestamp can be rendered in it, else the fallback default
    /// representation instead of a failure.
    pub open spec fn spec_rendered(self) -> Seq<char> {
        if self.well_formed() {
            self.spec_fixed_layout()
        } else {
            self.spec_default_layout()
        }
    }

    /// Timestamps ordered by calendar fields, most significant first.
    pub open spec fn spec_le(self, other: Timestamp) -> bool {
        if self.year != other.year {
            self.year < other.year
        } else if self.month != other.month {
            self.month < other.month
        } else if self.day != other.day {
            self.day < other.day
        } else if self.hour != other.hour {
            self.hour < other.hour
        } else if self.minute != other.minute {
            self.minute < other.minute
        } else {
            self.second <= other.second
        }
    }

    /// Whether this timestamp is at or before `other`.
    pub fn le(&self, other: &Timestamp) -> (r: bool)
        ensures
            r == self.spec_le(*other),
    {
        if self.year != other.year {
            self.year < other.year
        } else if self.month != other.month {
            self.month < other.month
        } else if self.day != other.day {
            self.day < other.day
        } else if self.hour != other.hour {
            self.hour < other.hour
        } else if self.minute != other.minute {
            self.minute < other.minute
        } else {
            self.second <= other.second
        }
    }

    /// Renders the timestamp for display: the fixed
    /// month-day-year:hour:minute:second layout, or the default year-month-day
    /// representation when a field is out of range for the fixed layout.
    pub fn format(&self) -> (r: String)
        ensures
            r@ == self.spec_rendered(),
    {
        let wf: bool = self.year <= 9999 && 1 <= self.month && self.month <= 12 && 1 <= self.day
            && self.day <= 31 && self.hour <= 23 && self.minute <= 59 && self.second <= 59;
        if wf {
            let mut s = String::new();
            push_two_digits(&mut s, self.month);
            s.append("-");
            push_two_digits(&mut s, self.day);
            s.append("-");
            push_four_digits(&mut s, self.year);
            s.append(":");
            push_two_digits(&mut s, self.hour);
            s.append(":");
            push_two_digits(&mut s, self.minute);
            s.append(":");
            push_two_digits(&mut s, self.second);
            proof {
                assert(s@ =~= self.spec_fixed_layout());
            }
            s
        } else {
            let mut s = String::new();
            push_decimal(&mut s, self.year as u64);
            s.append("-");
            push_decimal(&mut s, self.month as u64);
            s.append("-");
            push_decimal(&mut s, self.day as u64);
            proof {
                assert(s@ =~= self.spec_default_layout());
            }
            s
        }
    }
}

/// The single decimal digit `d` as text.
fn digit(d: u8) -> (r: &'static str)
    requires
        d <= 9,
    ensures
        r@ == seq![digit_char(d as int)],
{
    proof {
        reveal_strlit("0");
        reveal_strlit("1");
        reveal_strlit("2");
        reveal_strlit("3");
        reveal_strlit("4");
        reveal_strlit("5");
        reveal_strlit("6");
        reveal_strlit("7");
        reveal_strlit("8");
        reveal_strlit("9");
        assert("0"@ =~= seq!['0']);
        assert("1"@ =~= seq!['1']);
        assert("2"@ =~= seq!['2']);
        assert("3"@ =~= seq!['3']);
        assert("4"@ =~= seq!['4']);
        assert("5"@ =~= seq!['5']);
        assert("6"@ =~= seq!['6']);
        assert("7"@ =~= seq!['7']);
        assert("8"@ =~= seq!['8']);
        assert("9"@ =~= seq!['9']);
    }
    match d {
        0 => "0",
        1 => "1",
        2 => "2",
        3 => "3",
        4 => "4",
        5 => "5",
        6 => "6",
        7 => "7",
        8 => "8",
        _ => "9",
    }
}

/// Appends `v` as two zero-padded decimal digits.
fn push_two_digits(s: &mut String, v: u8)
    requires
        v <= 99,
    ensures
        final(s)@ == old(s)@ + two_digits(v as int),
{
    let tens: u8 = v / 10;
    let ones: u8 = v % 10;
    s.append(digit(tens));
    s.append(digit(ones));
    proof {
        assert(final(s)@ =~= old(s)@ + two_digits(v as int));
    }
}

/// Appends `v` in plain decimal.
fn push_decimal(s: &mut String, v: u64)
    ensures
        final(s)@ == old(s)@ + dec_digits(v as int),
    decreases v,
{
    if v < 10 {
        s.append(digit(v as u8));
    } else {
        push_decimal(s, v / 10);
        s.append(digit((v % 10) as u8));
        proof {
            assert(final(s)@ =~= old(s)@ + dec_digits(v as int));
        }
    }
}

/// Appends `v` as four zero-padded decimal digits.
fn push_four_digits(s: &mut String, v: u16)
    requires
        v <= 9999,
    ensures
        final(s)@ == old(s)@ + four_digits(v as int),
{
    let hundreds: u8 = (v / 100) as u8;
    let rest: u8 = (v % 100) as u8;
    push_two_digits(s, hundreds);
    push_two_digits(s, rest);
    proof {
        assert(hundreds as int == (v as int) / 100);
        assert(rest as int == (v as int) % 100);
        assert(final(s)@ =~= old(s)@ + four_digits(v as int));
    }
}

/// Display text for an optional timestamp: absent stays absent, present
/// timestamps are rendered with the fallback rule of `Timestamp::format`.
pub open spec fn spec_get_date(d: Option<Timestamp>) -> Option<Seq<char>> {
    match d {
        Some(t) => Some(t.spec_rendered()),
        None => None,
    }
}

/// Formats the "last updated" timestamp of a summary for display; an absent
/// timestamp yields an absent text, not an error.
pub fn get_date(date: Option<Timestamp>) -> (r: Option<String>)
    ensures
        match r {
            Some(s) => date matches Some(t) && s@ == t.spec_rendered(),
            None => date is None,
        },
{
    match date {
        Some(t) => Some(t.format()),
        None => None,
    }
}

/// One result row of a store's status query.
#[derive(Clone, Debug)]
pub struct StatusRow {
    pub id: String,
    pub name: String,
    pub updated: Timestamp,
}

/// Summary of one document store as its status query reports it: an
/// optional total and the optional most-recently-updated row. Every field
/// is optional because a store may be empty.
#[derive(Clone, Debug)]
pub struct SourceStatus {
    pub total: Option<u64>,
    pub last_updated_id: Option<String>,
    pub last_updated_name: Option<String>,
    pub last_updated_date: Option<Timestamp>,
}

/// Index `i` holds the most recently updated row, and is the first index to
/// do so.
pub open spec fn is_latest_row(rows: Seq<StatusRow>, i: int) -> bool {
    &&& 0 <= i < rows.len()
    &&& forall|j: int| 0 <= j < rows.len() ==> (#[trigger] rows[j]).updated.spec_le(
        rows[i].updated,
    )
    &&& forall|j: int| 0 <= j < i ==> !rows[i].updated.spec_le((#[trigger] rows[j]).updated)
}

/// Builds a store's summary from its result rows and its reported total:
/// the single most-recently-updated row's id, name and timestamp (the first
/// such row when timestamps tie), or absent fields when the store has no
/// rows.
pub fn summarize_rows(rows: &Vec<StatusRow>, reported_total: Option<u64>) -> (r: SourceStatus)
    ensures
        r.total == reported_total,
        rows@.len() == 0 ==> r.last_updated_id is None && r.last_updated_name is None
            && r.last_updated_date is None,
        rows@.len() > 0 ==> exists|i: int|
            {
                &&& #[trigger] is_latest_row(rows@, i)
                &&& r.last_updated_id matches Some(id) && id@ == rows@[i].id@
                &&& r.last_updated_name matches Some(nm) && nm@ == rows@[i].name@
                &&& r.last_updated_date == Some(rows@[i].updated)
            },
{
    if rows.len() == 0 {
        return SourceStatus {
            total: reported_total,
            last_updated_id: None,
            last_updated_name: None,
            last_updated_date: None,
        };
    }
    let n: usize = rows.len();
    let mut best: usize = 0;
    let mut j: usize = 1;
    while j < n
        invariant
            n == rows@.len(),
            1 <= j <= n,
            (best as int) < j,
            forall|k: int| 0 <= k < j ==> (#[trigger] rows@[k]).updated.spec_le(
                rows@[best as int].updated,
            ),
            forall|k: int| 0 <= k < best ==> !rows@[best as int].updated.spec_le(
                (#[trigger] rows@[k]).updated,
            ),
        decreases n - j,
    {
        if !rows[j].updated.le(&rows[best].updated) {
            proof {
                assert forall|k: int| 0 <= k < j implies (#[trigger] rows@[k]).updated.spec_le(
                    rows@[j as int].updated,
                ) by {
                    assert(rows@[k].updated.spec_le(rows@[best as int].updated));
                    assert(rows@[best as int].updated.spec_le(rows@[j as int].updated));
                }
                assert forall|k: int| 0 <= k < j implies !rows@[j as int].updated.spec_le(
                    (#[trigger] rows@[k]).updated,
                ) by {
                    if rows@[j as int].updated.spec_le(rows@[k].updated) {
                        assert(rows@[k].updated.spec_le(rows@[best as int].updated));
                        assert(rows@[j as int].updated.spec_le(rows@[best as int].updated));
                        assert(false);
                    }
                }
            }
            best = j;
        }
        j += 1;
    }
    let row = &rows[best];
    let r = SourceStatus {
        total: reported_total,
        last_updated_id: Some(row.id.clone()),
        last_updated_name: Some(row.name.clone()),
        last_updated_date: Some(row.updated),
    };
    proof {
        assert(is_latest_row(rows@, best as int));
    }
    r
}

/// Rollup of the SBOM store for the dashboard.
#[derive(Clone, Debug)]
pub struct SbomSummary {
    /// Total number of all documents
    pub total_sboms: Option<u64>,
    /// Id of last updated doc
    pub last_updated_sbom_id: Option<String>,
    /// name of last updated doc
    pub last_updated_sbom_name: Option<String>,
    /// Updated time of last updated doc
    pub last_updated_date: Option<String>,
}

/// Rollup of the CSAF/VEX store for the dashboard.
#[derive(Clone, Debug)]
pub struct CSAFSummary {
    /// Total number of all documents
    pub total_csafs: Option<u64>,
    /// Id of last updated doc
    pub last_updated_csaf_id: Option<String>,
    /// name of last updated doc
    pub last_updated_csaf_name: Option<String>,
    /// Updated time of last updated doc
    pub last_updated_date: Option<String>,
}

/// Rollup of the CVE store for the dashboard.
#[derive(Clone, Debug)]
pub struct CveSummary {
    /// Total number of all documents
    pub total_cves: Option<u64>,
    /// Name of last updated doc
    pub last_updated_cve: Option<String>,
    /// Updated time of last updated doc
    pub last_updated_date: Option<String>,
}

/// The composite dashboard view over the three stores.
#[derive(Clone, Debug)]
pub struct DashboardStatus {
    pub sbom_summary: SbomSummary,
    pub csaf_summary: CSAFSummary,
    pub cve_summary: CveSummary,
}

/// View of an optional string.
pub open spec fn view_opt(s: Option<String>) -> Option<Seq<char>> {
    match s {
        Some(v) => Some(v@),
        None => None,
    }
}

/// Assembles the dashboard from the outcomes of the three store queries.
///
/// The three queries run independently, but the dashboard is one coherent
/// view: the call succeeds exactly when all three succeeded, and the first
/// failing store's error is returned unchanged — never a partially
/// populated dashboard. On success every field is carried over, with the
/// timestamps rendered for display.
pub fn aggregate<E>(
    sbom: Result<SourceStatus, E>,
    csaf: Result<SourceStatus, E>,
    cve: Result<SourceStatus, E>,
) -> (r: Result<DashboardStatus, E>)
    ensures
        r is Ok <==> (sbom is Ok && csaf is Ok && cve is Ok),
        sbom matches Err(e) ==> r matches Err(e2) && e2 == e,
        sbom is Ok ==> (csaf matches Err(e) ==> r matches Err(e2) && e2 == e),
        sbom is Ok && csaf is Ok ==> (cve matches Err(e) ==> r matches Err(e2) && e2 == e),
        r matches Ok(d) ==> {
            &&& sbom matches Ok(s) && {
                &&& d.sbom_summary.total_sboms == s.total
                &&& view_opt(d.sbom_summary.last_updated_sbom_id) == view_opt(s.last_updated_id)
                &&& view_opt(d.sbom_summary.last_updated_sbom_name) == view_opt(
                    s.last_updated_name,
                )
                &&& view_opt(d.sbom_summary.last_updated_date) == spec_get_date(
                    s.last_updated_date,
                )
            }
            &&& csaf matches Ok(c) && {
                &&& d.csaf_summary.total_csafs == c.total
                &&& view_opt(d.csaf_summary.last_updated_csaf_id) == view_opt(c.last_updated_id)
                &&& view_opt(d.csaf_summary.last_updated_csaf_name) == view_opt(
                    c.last_updated_name,
                )
                &&& view_opt(d.csaf_summary.last_updated_date) == spec_get_date(
                    c.last_updated_date,
                )
            }
            &&& cve matches Ok(v) && {
                &&& d.cve_summary.total_cves == v.total
                &&& view_opt(d.cve_summary.last_updated_cve) == view_opt(v.last_updated_id)
                &&& view_opt(d.cve_summary.last_updated_date) == spec_get_date(
                    v.last_updated_date,
                )
            }
        },
{
    let s = match sbom {
        Ok(s) => s,
        Err(e) => {
            return Err(e);
        },
    };
    let c = match csaf {
        Ok(c) => c,
        Err(e) => {
            return Err(e);
        },
    };
    let v = match cve {
        Ok(v) => v,
        Err(e) => {
            return Err(e);
        },
    };
    Ok(
        DashboardStatus {
            sbom_summary: SbomSummary {
                total_sboms: s.total,
                last_updated_sbom_id: s.last_updated_id,
                last_updated_sbom_name: s.last_updated_name,
                last_updated_date: get_date(s.last_updated_date),
            },
            csaf_summary: CSAFSummary {
                total_csafs: c.total,
                last_updated_csaf_id: c.last_updated_id,
                last_updated_csaf_name: c.last_updated_name,
                last_updated_date: get_date(c.last_updated_date),
            },
            cve_summary: CveSummary {
                total_cves: v.total,
                last_updated_cve: v.last_updated_id,
                last_updated_date: get_date(v.last_updated_date),
            },
        },
    )
}

} // verus!

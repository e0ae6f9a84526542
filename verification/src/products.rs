//! Related-products table: flattens the per-status product groups of a CVE
//! into table rows and pairs each row with its fetched SBOM document.

use vstd::prelude::*;
use crate::status::ProductCveStatus;

verus! {

/// A package implicated in a product's exposure to a CVE.
#[derive(Clone, Debug)]
pub struct PackageRelatedToProductCve {
    pub purl: String,
}

/// A resolved product related to a CVE: the SBOM it maps to and the
/// constituent packages implicated.
#[derive(Clone, Debug)]
pub struct ProductRelatedToCve {
    pub sbom_id: String,
    pub packages: Vec<PackageRelatedToProductCve>,
}

/// One row of the related-products table. The SBOM document text is absent
/// until the batch fetch pairs it in.
#[derive(Debug)]
pub struct TableData {
    pub sbom: Option<String>,
    pub sbom_id: String,
    pub status: ProductCveStatus,
    pub packages: Vec<PackageRelatedToProductCve>,
}

/// The columns of the related-products table.
#[derive(Clone, Copy, Debug, PartialEq, Eq, Structural)]
pub enum Column {
    Name,
    Version,
    Status,
    Dependencies,
    Supplier,
    ReleasedOn,
}

/// The rows of one status group, in product order.
pub open spec fn group_rows(status: ProductCveStatus, items: Seq<ProductRelatedToCve>) -> Seq<
    TableData,
> {
    items.map_values(
        |it: ProductRelatedToCve|
            TableData { sbom: None, sbom_id: it.sbom_id, status, packages: it.packages },
    )
}

/// The rows of all status groups, group by group in input order.
pub open spec fn rows_of(products: Seq<(ProductCveStatus, Vec<ProductRelatedToCve>)>) -> Seq<
    TableData,
>
    decreases products.len(),
{
    if products.len() == 0 {
        Seq::empty()
    } else {
        rows_of(products.drop_last()) + group_rows(
            products.last().0,
            products.last().1@,
        )
    }
}

/// Flattens the per-status product groups into table rows: one row per
/// related product, keeping group order and, inside a group, product order.
pub fn table_rows(products: Vec<(ProductCveStatus, Vec<ProductRelatedToCve>)>) -> (r: Vec<
    TableData,
>)
    ensures
        r@ == rows_of(products@),
{
    let ghost orig = products@;
    let n: usize = products.len();
    let mut groups = products;
    let mut r: Vec<TableData> = Vec::new();
    let mut i: usize = 0;
    while i < n
        invariant
            n == orig.len(),
            i <= n,
            groups@ == orig.skip(i as int),
            r@ == rows_of(orig.take(i as int)),
        decreases n - i,
    {
        let ghost gsnap = groups@;
        let (status, items) = groups.remove(0);
        proof {
            assert(gsnap[0] == orig[i as int]);
            assert(groups@ =~= orig.skip(i as int + 1));
        }
        let ghost items_view = items@;
        let m: usize = items.len();
        let mut rest = items;
        let mut k: usize = 0;
        while k < m
            invariant
                m == items_view.len(),
                k <= m,
                rest@ == items_view.skip(k as int),
                r@ == rows_of(orig.take(i as int)) + group_rows(status, items_view.take(k as int)),
            decreases m - k,
        {
            let ghost rsnap = rest@;
            let it = rest.remove(0);
            proof {
                assert(rsnap[0] == items_view[k as int]);
                assert(rest@ =~= items_view.skip(k as int + 1));
            }
            r.push(TableData { sbom: None, sbom_id: it.sbom_id, status, packages: it.packages });
            proof {
                assert(items_view.take(k as int + 1).drop_last() =~= items_view.take(k as int));
                assert(group_rows(status, items_view.take(k as int + 1)) =~= group_rows(
                    status,
                    items_view.take(k as int),
                ).push(
                    TableData {
                        sbom: None,
                        sbom_id: items_view[k as int].sbom_id,
                        status,
                        packages: items_view[k as int].packages,
                    },
                ));
                assert(r@ =~= rows_of(orig.take(i as int)) + group_rows(
                    status,
                    items_view.take(k as int + 1),
                ));
            }
            k += 1;
        }
        proof {
            assert(items_view.take(m as int) =~= items_view);
            let next = orig.take(i as int + 1);
            assert(next.drop_last() =~= orig.take(i as int));
            assert(next.last() == orig[i as int]);
            assert(rows_of(next) == rows_of(orig.take(i as int)) + group_rows(
                orig[i as int].0,
                orig[i as int].1@,
            ));
            assert(status == orig[i as int].0 && items_view == orig[i as int].1@);
            assert(r@ == rows_of(next));
        }
        i += 1;
    }
    proof {
        assert(orig.take(n as int) =~= orig);
    }
    r
}

/// Pairs each table row with the SBOM document fetched for its position:
/// the output keeps the rows in order, with only the SBOM field replaced.
pub fn attach_sboms(rows: Vec<TableData>, sboms: Vec<Option<String>>) -> (r: Vec<TableData>)
    requires
        rows@.len() == sboms@.len(),
    ensures
        r@.len() == rows@.len(),
        forall|i: int| #![trigger r@[i]]
            0 <= i < r@.len() ==> r@[i] == (TableData { sbom: sboms@[i], ..rows@[i] }),
{
    let ghost orig = rows@;
    let ghost sorig = sboms@;
    let n: usize = rows.len();
    let mut rest = rows;
    let mut srest = sboms;
    let mut out: Vec<TableData> = Vec::new();
    let mut i: usize = 0;
    while i < n
        invariant
            n == orig.len(),
            n == sorig.len(),
            i <= n,
            rest@ == orig.skip(i as int),
            srest@ == sorig.skip(i as int),
            out@.len() == i,
            forall|j: int| #![trigger out@[j]]
                0 <= j < i ==> out@[j] == (TableData { sbom: sorig[j], ..orig[j] }),
        decreases n - i,
    {
        let ghost rsnap = rest@;
        let ghost ssnap = srest@;
        let mut row = rest.remove(0);
        let sb = srest.remove(0);
        proof {
            assert(rsnap[0] == orig[i as int]);
            assert(ssnap[0] == sorig[i as int]);
            assert(rest@ =~= orig.skip(i as int + 1));
            assert(srest@ =~= sorig.skip(i as int + 1));
        }
        row.sbom = sb;
        out.push(row);
        i += 1;
    }
    out
}

} // verus!

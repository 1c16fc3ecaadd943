use vstd::prelude::*;
use crate::merge::{
    address_row_used, effective_rep, merged, overlaid, reconciled, sales_row_used, state_index,
    RowsView, TextMap,
};
use crate::records::{address_row_error, sales_row_error, state_rep_row_error};

verus! {

/// Some US row of the address book that is a record names company `c`.
pub open spec fn book_lists(rows: RowsView, c: Seq<char>) -> bool {
    exists|j: int| 0 <= j < rows.len() && address_row_used(#[trigger] rows[j]) && rows[j].unwrap()[3] == c
}

/// Some row of the sales table that is a record names company `c`.
pub open spec fn sales_lists(rows: RowsView, c: Seq<char>) -> bool {
    exists|j: int| 0 <= j < rows.len() && sales_row_used(#[trigger] rows[j]) && rows[j].unwrap()[1] == c
}

/// Some row of the regions table that is a record names state `s`.
pub open spec fn regions_list(rows: RowsView, s: Seq<char>) -> bool {
    exists|j: int|
        0 <= j < rows.len() && (#[trigger] rows[j]) is Some && state_rep_row_error(rows[j].unwrap()) is None
            && rows[j].unwrap()[0] == s
}

proof fn lemma_state_index_skip(rows: RowsView, i: int, x: Option<Seq<Seq<char>>>)
    requires
        0 <= i <= rows.len(),
        !(x is Some && state_rep_row_error(x.unwrap()) is None),
    ensures
        state_index(rows.insert(i, x)) == state_index(rows),
    decreases rows.len(),
{
    if i == rows.len() {
        assert(rows.insert(i, x).drop_last() =~= rows);
    } else {
        lemma_state_index_skip(rows.drop_last(), i, x);
        assert(rows.insert(i, x).drop_last() =~= rows.drop_last().insert(i, x));
    }
}

proof fn lemma_reconciled_skip(index: TextMap, rows: RowsView, i: int, x: Option<Seq<Seq<char>>>)
    requires
        0 <= i <= rows.len(),
        !address_row_used(x),
    ensures
        reconciled(index, rows.insert(i, x)) == reconciled(index, rows),
    decreases rows.len(),
{
    if i == rows.len() {
        assert(rows.insert(i, x).drop_last() =~= rows);
    } else {
        lemma_reconciled_skip(index, rows.drop_last(), i, x);
        assert(rows.insert(i, x).drop_last() =~= rows.drop_last().insert(i, x));
    }
}

proof fn lemma_overlaid_skip(t: TextMap, rows: RowsView, i: int, x: Option<Seq<Seq<char>>>)
    requires
        0 <= i <= rows.len(),
        !sales_row_used(x),
    ensures
        overlaid(t, rows.insert(i, x)) == overlaid(t, rows),
    decreases rows.len(),
{
    if i == rows.len() {
        assert(rows.insert(i, x).drop_last() =~= rows);
    } else {
        lemma_overlaid_skip(t, rows.drop_last(), i, x);
        assert(rows.insert(i, x).drop_last() =~= rows.drop_last().insert(i, x));
    }
}

proof fn lemma_state_index_dom(rows: RowsView, s: Seq<char>)
    ensures
        state_index(rows).contains_key(s) <==> regions_list(rows, s),
    decreases rows.len(),
{
    if rows.len() > 0 {
        let p = rows.drop_last();
        lemma_state_index_dom(p, s);
        if regions_list(p, s) {
            let j = choose|j: int|
                0 <= j < p.len() && (#[trigger] p[j]) is Some && state_rep_row_error(p[j].unwrap()) is None
                    && p[j].unwrap()[0] == s;
            assert(rows[j] == p[j]);
        }
        if regions_list(rows, s) {
            let j = choose|j: int|
                0 <= j < rows.len() && (#[trigger] rows[j]) is Some && state_rep_row_error(
                    rows[j].unwrap(),
                ) is None && rows[j].unwrap()[0] == s;
            if j < rows.len() - 1 {
                assert(p[j] == rows[j]);
            }
        }
    }
}

proof fn lemma_reconciled_dom(index: TextMap, rows: RowsView, c: Seq<char>)
    ensures
        reconciled(index, rows).contains_key(c) <==> book_lists(rows, c),
    decreases rows.len(),
{
    if rows.len() > 0 {
        let p = rows.drop_last();
        lemma_reconciled_dom(index, p, c);
        if book_lists(p, c) {
            let j = choose|j: int| 0 <= j < p.len() && address_row_used(#[trigger] p[j]) && p[j].unwrap()[3] == c;
            assert(rows[j] == p[j]);
        }
        if book_lists(rows, c) {
            let j = choose|j: int|
                0 <= j < rows.len() && address_row_used(#[trigger] rows[j]) && rows[j].unwrap()[3] == c;
            if j < rows.len() - 1 {
                assert(p[j] == rows[j]);
            }
        }
    }
}

proof fn lemma_overlaid_dom(t: TextMap, rows: RowsView, c: Seq<char>)
    ensures
        overlaid(t, rows).contains_key(c) <==> (t.contains_key(c) || sales_lists(rows, c)),
    decreases rows.len(),
{
    if rows.len() > 0 {
        let p = rows.drop_last();
        lemma_overlaid_dom(t, p, c);
        if sales_lists(p, c) {
            let j = choose|j: int| 0 <= j < p.len() && sales_row_used(#[trigger] p[j]) && p[j].unwrap()[1] == c;
            assert(rows[j] == p[j]);
        }
        if sales_lists(rows, c) {
            let j = choose|j: int|
                0 <= j < rows.len() && sales_row_used(#[trigger] rows[j]) && rows[j].unwrap()[1] == c;
            if j < rows.len() - 1 {
                assert(p[j] == rows[j]);
            }
        }
    }
}

proof fn lemma_overlaid_untouched(t: TextMap, rows: RowsView, c: Seq<char>)
    requires
        !sales_lists(rows, c),
    ensures
        overlaid(t, rows).contains_key(c) == t.contains_key(c),
        t.contains_key(c) ==> overlaid(t, rows)[c] == t[c],
    decreases rows.len(),
{
    if rows.len() > 0 {
        let p = rows.drop_last();
        if sales_lists(p, c) {
            let j = choose|j: int| 0 <= j < p.len() && sales_row_used(#[trigger] p[j]) && p[j].unwrap()[1] == c;
            assert(rows[j] == p[j]);
        }
        if sales_row_used(rows.last()) {
            assert(rows.last() == rows[rows.len() - 1]);
        }
        lemma_overlaid_untouched(t, p, c);
    }
}

proof fn lemma_overlaid_at(t: TextMap, rows: RowsView, k: int)
    requires
        0 <= k < rows.len(),
        sales_row_used(rows[k]),
        forall|j: int|
            k < j < rows.len() && sales_row_used(#[trigger] rows[j]) ==> rows[j].unwrap()[1]
                != rows[k].unwrap()[1],
    ensures
        overlaid(t, rows).contains_key(rows[k].unwrap()[1]),
        overlaid(t, rows)[rows[k].unwrap()[1]] == rows[k].unwrap()[0],
    decreases rows.len(),
{
    if k < rows.len() - 1 {
        let p = rows.drop_last();
        assert(p[k] == rows[k]);
        assert forall|j: int| k < j < p.len() && sales_row_used(#[trigger] p[j]) implies p[j].unwrap()[1]
            != p[k].unwrap()[1] by {
            assert(p[j] == rows[j]);
        }
        lemma_overlaid_at(t, p, k);
        assert(rows.last() == rows[rows.len() - 1]);
    }
}

proof fn lemma_reconciled_at(index: TextMap, rows: RowsView, k: int)
    requires
        0 <= k < rows.len(),
        address_row_used(rows[k]),
        forall|j: int|
            k < j < rows.len() && address_row_used(#[trigger] rows[j]) ==> rows[j].unwrap()[3]
                != rows[k].unwrap()[3],
    ensures
        reconciled(index, rows).contains_key(rows[k].unwrap()[3]),
        reconciled(index, rows)[rows[k].unwrap()[3]] == effective_rep(index, rows[k].unwrap()),
    decreases rows.len(),
{
    if k < rows.len() - 1 {
        let p = rows.drop_last();
        assert(p[k] == rows[k]);
        assert forall|j: int| k < j < p.len() && address_row_used(#[trigger] p[j]) implies p[j].unwrap()[3]
            != p[k].unwrap()[3] by {
            assert(p[j] == rows[j]);
        }
        lemma_reconciled_at(index, p, k);
        assert(rows.last() == rows[rows.len() - 1]);
    }
}

/// A row that is not a record of its table (a missing column, a numeric
/// field out of format, or a line that could not be read), inserted anywhere
/// in any of the three inputs, changes nothing in the merged table.
pub proof fn law_malformed_row_ignored(
    regions: RowsView,
    book: RowsView,
    sales: RowsView,
    row: Option<Seq<Seq<char>>>,
    i: int,
)
    ensures
        0 <= i <= regions.len() && !(row is Some && state_rep_row_error(row.unwrap()) is None)
            ==> merged(regions.insert(i, row), book, sales) == merged(regions, book, sales),
        0 <= i <= book.len() && !(row is Some && address_row_error(row.unwrap()) is None)
            ==> merged(regions, book.insert(i, row), sales) == merged(regions, book, sales),
        0 <= i <= sales.len() && !(row is Some && sales_row_error(row.unwrap()) is None)
            ==> merged(regions, book, sales.insert(i, row)) == merged(regions, book, sales),
{
    if 0 <= i <= regions.len() && !(row is Some && state_rep_row_error(row.unwrap()) is None) {
        lemma_state_index_skip(regions, i, row);
    }
    if 0 <= i <= book.len() && !(row is Some && address_row_error(row.unwrap()) is None) {
        lemma_reconciled_skip(state_index(regions), book, i, row);
    }
    if 0 <= i <= sales.len() && !(row is Some && sales_row_error(row.unwrap()) is None) {
        lemma_overlaid_skip(reconciled(state_index(regions), book), sales, i, row);
    }
}

/// A company named by a sales record gets the rep of the last sales record
/// that names it, whatever the address book says of it.
pub proof fn law_sales_precedence(regions: RowsView, book: RowsView, sales: RowsView, k: int)
    requires
        0 <= k < sales.len(),
        sales_row_used(sales[k]),
        forall|j: int|
            k < j < sales.len() && sales_row_used(#[trigger] sales[j]) ==> sales[j].unwrap()[1]
                != sales[k].unwrap()[1],
    ensures
        merged(regions, book, sales).contains_key(sales[k].unwrap()[1]),
        merged(regions, book, sales)[sales[k].unwrap()[1]] == sales[k].unwrap()[0],
{
    lemma_overlaid_at(reconciled(state_index(regions), book), sales, k);
}

/// A company of a US address-book record whose state no regions record
/// names, and which no later such record and no sales record names, keeps
/// the rep written in its own row.
pub proof fn law_state_fallback(regions: RowsView, book: RowsView, sales: RowsView, k: int)
    requires
        0 <= k < book.len(),
        address_row_used(book[k]),
        !regions_list(regions, book[k].unwrap()[10]),
        forall|j: int|
            k < j < book.len() && address_row_used(#[trigger] book[j]) ==> book[j].unwrap()[3]
                != book[k].unwrap()[3],
        !sales_lists(sales, book[k].unwrap()[3]),
    ensures
        merged(regions, book, sales).contains_key(book[k].unwrap()[3]),
        merged(regions, book, sales)[book[k].unwrap()[3]] == book[k].unwrap()[13],
{
    let index = state_index(regions);
    lemma_state_index_dom(regions, book[k].unwrap()[10]);
    lemma_reconciled_at(index, book, k);
    lemma_overlaid_untouched(reconciled(index, book), sales, book[k].unwrap()[3]);
}

/// The companies of the merged table are exactly those named by a US
/// address-book record or by a sales record; so a company that only non-US
/// rows of the address book name is absent unless the sales table names it.
pub proof fn law_output_companies(regions: RowsView, book: RowsView, sales: RowsView, c: Seq<char>)
    ensures
        merged(regions, book, sales).contains_key(c) <==> (book_lists(book, c) || sales_lists(
            sales,
            c,
        )),
{
    let index = state_index(regions);
    lemma_reconciled_dom(index, book, c);
    lemma_overlaid_dom(reconciled(index, book), sales, c);
}

} // verus!

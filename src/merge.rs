use vstd::prelude::*;
use crate::records::{
    address_row_error, parse_address_book, parse_sales, parse_state_rep, sales_row_error,
    state_rep_row_error, ResultRecord, Row,
};
use crate::table::{lemma_entries_map_at, lemma_entries_map_len, RepTable};

verus! {

/// The rows that were read from one input table, in input order. `None`
/// stands for a line that could not be read as a row at all.
pub type Rows = Vec<Option<Row>>;

/// The view of a table's rows.
pub type RowsView = Seq<Option<Seq<Seq<char>>>>;

/// A map from text to text, such as state code to sales rep or company name
/// to sales rep.
pub type TextMap = Map<Seq<char>, Seq<char>>;

/// The state-rep index built from the regions rows: each well-formed row
/// maps its state code to its sales rep, the later row winning.
pub open spec fn state_index(rows: RowsView) -> TextMap
    decreases rows.len(),
{
    if rows.len() == 0 {
        Map::empty()
    } else {
        let m = state_index(rows.drop_last());
        let r = rows.last();
        if r is Some && state_rep_row_error(r.unwrap()) is None {
            m.insert(r.unwrap()[0], r.unwrap()[1])
        } else {
            m
        }
    }
}

/// The sales rep that an address-book row resolves to: the rep assigned to
/// its state if there is one, else the row's own rep.
pub open spec fn effective_rep(index: TextMap, row: Seq<Seq<char>>) -> Seq<char> {
    if index.contains_key(row[10]) {
        index[row[10]]
    } else {
        row[13]
    }
}

/// An address-book row that takes part in the merge: well-formed and in the US.
pub open spec fn address_row_used(r: Option<Seq<Seq<char>>>) -> bool {
    r is Some && address_row_error(r.unwrap()) is None && r.unwrap()[12] == "US"@
}

/// The working table that the address book yields, company name to
/// effective rep, the later row winning.
pub open spec fn reconciled(index: TextMap, rows: RowsView) -> TextMap
    decreases rows.len(),
{
    if rows.len() == 0 {
        Map::empty()
    } else {
        let m = reconciled(index, rows.drop_last());
        let r = rows.last();
        if address_row_used(r) {
            m.insert(r.unwrap()[3], effective_rep(index, r.unwrap()))
        } else {
            m
        }
    }
}

/// A sales row that takes part in the merge: well-formed.
pub open spec fn sales_row_used(r: Option<Seq<Seq<char>>>) -> bool {
    r is Some && sales_row_error(r.unwrap()) is None
}

/// `table` after each well-formed sales row, in order, has set its company's
/// rep to the row's rep.
pub open spec fn overlaid(table: TextMap, rows: RowsView) -> TextMap
    decreases rows.len(),
{
    if rows.len() == 0 {
        table
    } else {
        let m = overlaid(table, rows.drop_last());
        let r = rows.last();
        if sales_row_used(r) {
            m.insert(r.unwrap()[1], r.unwrap()[0])
        } else {
            m
        }
    }
}

/// The company-to-rep table that the three inputs give.
pub open spec fn merged(regions: RowsView, book: RowsView, sales: RowsView) -> TextMap {
    overlaid(reconciled(state_index(regions), book), sales)
}

/// Builds the state-rep index from the rows of the regions table; rows that
/// are not records are skipped.
pub fn build_state_index(rows: &Rows) -> (r: RepTable)
    ensures
        r.wf(),
        r@ == state_index(rows.deep_view()),
{
    let ghost v = rows.deep_view();
    let mut index = RepTable::new();
    let mut i: usize = 0;
    while i < rows.len()
        invariant
            i <= rows@.len(),
            v == rows.deep_view(),
            index.wf(),
            index@ == state_index(v.take(i as int)),
        decreases rows@.len() - i,
    {
        assert(v.take(i + 1).drop_last() =~= v.take(i as int));
        assert(v.take(i + 1).last() == rows@[i as int].deep_view());
        if let Some(row) = &rows[i] {
            if let Ok(rec) = parse_state_rep(row) {
                assert(rec.fields()[0] == rec.state_code@);
                assert(rec.fields()[1] == rec.sales_rep@);
                index.insert(rec.state_code, rec.sales_rep);
            }
        }
        i = i + 1;
    }
    assert(v.take(i as int) =~= v);
    index
}

/// Builds the working table from the rows of the address book: each
/// well-formed US row maps its company to its effective rep.
pub fn reconcile_addresses(index: &RepTable, rows: &Rows) -> (r: RepTable)
    requires
        index.wf(),
    ensures
        r.wf(),
        r@ == reconciled(index@, rows.deep_view()),
{
    let ghost v = rows.deep_view();
    let us = "US".to_string();
    let mut table = RepTable::new();
    let mut i: usize = 0;
    while i < rows.len()
        invariant
            i <= rows@.len(),
            v == rows.deep_view(),
            us@ == "US"@,
            index.wf(),
            table.wf(),
            table@ == reconciled(index@, v.take(i as int)),
        decreases rows@.len() - i,
    {
        assert(v.take(i + 1).drop_last() =~= v.take(i as int));
        assert(v.take(i + 1).last() == rows@[i as int].deep_view());
        if let Some(row) = &rows[i] {
            if let Ok(rec) = parse_address_book(row) {
                assert(rec.fields()[3] == rec.company_name@);
                assert(rec.fields()[10] == rec.state@);
                assert(rec.fields()[12] == rec.country_code@);
                assert(rec.fields()[13] == rec.sales_rep@);
                if rec.country_code == us {
                    let rep = match index.get(&rec.state) {
                        Some(s) => s.clone(),
                        None => rec.sales_rep,
                    };
                    table.insert(rec.company_name, rep);
                }
            }
        }
        i = i + 1;
    }
    assert(v.take(i as int) =~= v);
    table
}

/// Lays the sales rows over the working table: each well-formed row sets its
/// company's rep to the row's rep, adding the company if it is new.
pub fn apply_sales(table: &mut RepTable, rows: &Rows)
    requires
        old(table).wf(),
    ensures
        final(table).wf(),
        final(table)@ == overlaid(old(table)@, rows.deep_view()),
{
    let ghost v = rows.deep_view();
    let ghost t0 = table@;
    let mut i: usize = 0;
    assert(v.take(0) =~= Seq::<Option<Seq<Seq<char>>>>::empty());
    while i < rows.len()
        invariant
            i <= rows@.len(),
            v == rows.deep_view(),
            table.wf(),
            table@ == overlaid(t0, v.take(i as int)),
        decreases rows@.len() - i,
    {
        assert(v.take(i + 1).drop_last() =~= v.take(i as int));
        assert(v.take(i + 1).last() == rows@[i as int].deep_view());
        if let Some(row) = &rows[i] {
            if let Ok(rec) = parse_sales(row) {
                let entry = ResultRecord::from(rec);
                table.insert(entry.company_name, entry.sales_rep);
            }
        }
        i = i + 1;
    }
    assert(v.take(i as int) =~= v);
}

/// Runs the whole merge on the rows of the three tables.
pub fn merge_tables(regions: &Rows, book: &Rows, sales: &Rows) -> (r: RepTable)
    ensures
        r.wf(),
        r@ == merged(regions.deep_view(), book.deep_view(), sales.deep_view()),
{
    let index = build_state_index(regions);
    let mut table = reconcile_addresses(&index, book);
    apply_sales(&mut table, sales);
    table
}

/// The header row of the output table.
pub open spec fn output_header() -> Seq<Seq<char>> {
    seq!["Company Name"@, "Sales Rep"@]
}

/// `out` is the output table for `m`: the header, then one row
/// `[company, rep]` for each entry of `m`, each company once, in any order.
pub open spec fn output_matches(out: Seq<Seq<Seq<char>>>, m: TextMap) -> bool {
    &&& m.dom().finite()
    &&& out.len() == m.len() + 1
    &&& out[0] == output_header()
    &&& forall|i: int|
        1 <= i < out.len() ==> (#[trigger] out[i]).len() == 2 && m.contains_key(out[i][0])
            && m[out[i][0]] == out[i][1]
    &&& forall|i: int, j: int|
        1 <= i < out.len() && 1 <= j < out.len() && i != j ==> (#[trigger] out[i])[0] != (
        #[trigger] out[j])[0]
    &&& forall|k: Seq<char>|
        #[trigger] m.contains_key(k) ==> exists|i: int| 1 <= i < out.len() && (#[trigger] out[i])[0] == k
}

/// The output table of `table`: the header row, then one row per company.
pub fn output_rows(table: &RepTable) -> (r: Vec<Vec<String>>)
    requires
        table.wf(),
    ensures
        output_matches(r.deep_view(), table@),
{
    let pairs = table.pairs();
    let mut out: Vec<Vec<String>> = Vec::new();
    let header = vec!["Company Name".to_string(), "Sales Rep".to_string()];
    out.push(header);
    let mut i: usize = 0;
    while i < pairs.len()
        invariant
            i <= pairs@.len(),
            out@.len() == i + 1,
            out.deep_view()[0] == output_header(),
            forall|j: int|
                0 <= j < i ==> (#[trigger] out.deep_view()[j + 1]) == seq![
                    pairs@[j].0@,
                    pairs@[j].1@,
                ],
        decreases pairs@.len() - i,
    {
        let row = vec![pairs[i].0.clone(), pairs[i].1.clone()];
        assert(row.deep_view() =~= seq![pairs@[i as int].0@, pairs@[i as int].1@]);
        let ghost before = out.deep_view();
        out.push(row);
        assert forall|j: int| 0 <= j < i + 1 implies (#[trigger] out.deep_view()[j + 1]) == seq![
            pairs@[j].0@,
            pairs@[j].1@,
        ] by {
            if j < i {
                assert(out.deep_view()[j + 1] == before[j + 1]);
            }
        }
        assert(out.deep_view()[0] == before[0]);
        i = i + 1;
    }
    proof {
        let o = out.deep_view();
        let s = pairs@;
        let m = table@;
        lemma_entries_map_len(s);
        assert forall|i: int| 1 <= i < o.len() implies (#[trigger] o[i]).len() == 2
            && m.contains_key(o[i][0]) && m[o[i][0]] == o[i][1] by {
            assert(o[(i - 1) + 1] == o[i]);
            lemma_entries_map_at(s, i - 1);
        }
        assert forall|i: int, j: int|
            1 <= i < o.len() && 1 <= j < o.len() && i != j implies (#[trigger] o[i])[0] != (
            #[trigger] o[j])[0] by {
            assert(o[(i - 1) + 1] == o[i]);
            assert(o[(j - 1) + 1] == o[j]);
        }
        assert forall|k: Seq<char>| #[trigger] m.contains_key(k) implies exists|i: int|
            1 <= i < o.len() && (#[trigger] o[i])[0] == k by {
            let j = choose|j: int| 0 <= j < s.len() && s[j].0@ == k;
            assert(o[j + 1][0] == k);
        }
    }
    out
}

/// Two output tables for the same map hold the same header and the same set
/// of rows: the output is determined up to the order of its rows.
pub proof fn lemma_output_determined(out1: Seq<Seq<Seq<char>>>, out2: Seq<Seq<Seq<char>>>, m: TextMap)
    requires
        output_matches(out1, m),
        output_matches(out2, m),
    ensures
        out1[0] == out2[0],
        out1.len() == out2.len(),
        out1.skip(1).to_set() == out2.skip(1).to_set(),
{
    assert forall|r: Seq<Seq<char>>| out1.skip(1).to_set().contains(r) implies out2.skip(1).to_set().contains(r) by {
        let i = choose|i: int| 0 <= i < out1.skip(1).len() && out1.skip(1)[i] == r;
        assert(out1[i + 1] == r);
        let k = r[0];
        assert(m.contains_key(k));
        let j = choose|j: int| 1 <= j < out2.len() && (#[trigger] out2[j])[0] == k;
        assert(out2[j] =~= r);
        assert(out2.skip(1)[j - 1] == r);
    }
    assert forall|r: Seq<Seq<char>>| out2.skip(1).to_set().contains(r) implies out1.skip(1).to_set().contains(r) by {
        let i = choose|i: int| 0 <= i < out2.skip(1).len() && out2.skip(1)[i] == r;
        assert(out2[i + 1] == r);
        let k = r[0];
        assert(m.contains_key(k));
        let j = choose|j: int| 1 <= j < out1.len() && (#[trigger] out1[j])[0] == k;
        assert(out1[j] =~= r);
        assert(out1.skip(1)[j - 1] == r);
    }
    assert(out1.skip(1).to_set() =~= out2.skip(1).to_set());
}

} // verus!

use vstd::prelude::*;
use crate::merge::{merge_tables, merged, output_header, output_matches, output_rows, Rows};

verus! {

/// The rows that a CSV text holds after its header line, each as its fields,
/// or as `None` where the line could not be read as a record.
pub uninterp spec fn csv_rows_of(data: Seq<u8>) -> Seq<Option<Seq<Seq<char>>>>;

/// The CSV text that writes the given records, one per line.
pub uninterp spec fn csv_text_of(rows: Seq<Seq<Seq<char>>>) -> Seq<u8>;

/// A field that the CSV writer copies as it stands: ASCII, with no comma,
/// quote or line break.
pub open spec fn plain_field(f: Seq<char>) -> bool {
    forall|i: int|
        0 <= i < f.len() ==> (f[i] as u32) < 128 && f[i] != ',' && f[i] != '"' && f[i] != '\r'
            && f[i] != '\n'
}

/// The fields of a record joined by commas.
pub open spec fn joined(r: Seq<Seq<char>>) -> Seq<char>
    decreases r.len(),
{
    if r.len() == 0 {
        Seq::empty()
    } else if r.len() == 1 {
        r[0]
    } else {
        joined(r.drop_last()) + seq![','] + r.last()
    }
}

/// Records of plain fields whose joined text is not empty.
pub open spec fn plain_rows(rows: Seq<Seq<Seq<char>>>) -> bool {
    forall|i: int|
        0 <= i < rows.len() ==> joined(#[trigger] rows[i]).len() > 0 && forall|j: int|
            0 <= j < rows[i].len() ==> plain_field(#[trigger] rows[i][j])
}

/// Each record joined by commas and ended by a line feed.
pub open spec fn plain_lines(rows: Seq<Seq<Seq<char>>>) -> Seq<char>
    decreases rows.len(),
{
    if rows.len() == 0 {
        Seq::empty()
    } else {
        plain_lines(rows.drop_last()) + joined(rows.last()) + seq!['\n']
    }
}

/// The bytes of an ASCII text.
pub open spec fn ascii_bytes(s: Seq<char>) -> Seq<u8> {
    s.map_values(|c: char| c as u8)
}

/// Relies on `csv::Reader::from_reader` and `Reader::records` with the
/// default settings: the first record is taken as the header, and each later
/// record comes out as its fields or as an error, which depend on the bytes
/// alone.
#[verifier::external_body]
fn read_rows(data: &Vec<u8>) -> (r: Rows)
    ensures
        r.deep_view() == csv_rows_of(data@),
{
    let mut rdr = csv::Reader::from_reader(data.as_slice());
    rdr.records().map(|rec| rec.ok().map(|fields| fields.iter().map(String::from).collect())).collect()
}

/// Relies on `csv::Writer::from_writer`, `Writer::write_record` and
/// `Writer::into_inner`, writing into memory: the bytes written depend on the
/// records alone. Writing into a `Vec` cannot fail, and a writer that is not
/// flexible (the default) reports an error only for a record whose number of
/// fields differs from the first record's. With the default settings (quote
/// only where needed, `\n` as terminator) a record of plain fields is written
/// as its fields joined by commas, and a record with no text as `""`.
#[verifier::external_body]
fn write_rows(rows: &Vec<Vec<String>>) -> (r: Option<Vec<u8>>)
    ensures
        r matches Some(b) ==> b@ == csv_text_of(rows.deep_view()),
        r matches Some(b) ==> (plain_rows(rows.deep_view()) ==> b@ == ascii_bytes(
            plain_lines(rows.deep_view()),
        )),
        (forall|i: int| 0 <= i < rows@.len() ==> (#[trigger] rows@[i])@.len() == rows@[0]@.len())
            ==> r is Some,
{
    let mut wtr = csv::Writer::from_writer(Vec::new());
    for row in rows.iter() {
        if wtr.write_record(row).is_err() {
            return None;
        }
    }
    wtr.into_inner().ok()
}

/// Merges the rows of the three tables into the output table: the header,
/// then one row per company with its sales rep.
pub fn merge_rows(regions: &Rows, book: &Rows, sales: &Rows) -> (r: Vec<Vec<String>>)
    ensures
        output_matches(r.deep_view(), merged(regions.deep_view(), book.deep_view(), sales.deep_view())),
{
    let table = merge_tables(regions, book, sales);
    output_rows(&table)
}

/// Reads the three CSV texts, merges them and writes the output table as
/// CSV text.
pub fn merge_csv(regions: &Vec<u8>, book: &Vec<u8>, sales: &Vec<u8>) -> (b: Vec<u8>)
    ensures
        exists|out: Seq<Seq<Seq<char>>>|
            output_matches(
                out,
                merged(csv_rows_of(regions@), csv_rows_of(book@), csv_rows_of(sales@)),
            ) && b@ == csv_text_of(out) && (plain_rows(out) ==> b@ == ascii_bytes(plain_lines(out))),
{
    let region_rows = read_rows(regions);
    let book_rows = read_rows(book);
    let sales_rows = read_rows(sales);
    let out = merge_rows(&region_rows, &book_rows, &sales_rows);
    proof {
        let o = out.deep_view();
        assert(o[0] == output_header());
        assert forall|i: int| 0 <= i < out@.len() implies (#[trigger] out@[i])@.len()
            == out@[0]@.len() by {
            assert(o[i] == out@[i].deep_view());
            assert(o[0] == out@[0].deep_view());
        }
    }
    let b = write_rows(&out).unwrap();
    assert(output_matches(
        out.deep_view(),
        merged(csv_rows_of(regions@), csv_rows_of(book@), csv_rows_of(sales@)),
    ));
    b
}

} // verus!

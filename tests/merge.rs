use rep_merge::csv_text::{merge_csv, merge_rows};
use rep_merge::merge::{apply_sales, build_state_index, merge_tables, reconcile_addresses, Rows};
use rep_merge::records::{
    parse_address_book, parse_sales, parse_state_rep, Field, NumberFormat, ParseError,
    ResultRecord, SalesRecord,
};
use rep_merge::table::RepTable;
use rep_merge::text::{is_float_text, parse_count};
use std::collections::BTreeSet;

fn row(fields: &[&str]) -> Vec<String> {
    fields.iter().map(|f| f.to_string()).collect()
}

fn book_row(company: &str, state: &str, country: &str, rep: &str) -> Vec<String> {
    row(&[
        "Full Name", "First", "Last", company, "555-0100", "a@b.c", "user", "1 Main St", "",
        "Town", state, "12345", country, rep, "Widgets",
    ])
}

fn sales_row(rep: &str, company: &str) -> Vec<String> {
    row(&[rep, company, "100.5", "3", "200.0", "4", "99.5"])
}

fn rows(rs: Vec<Vec<String>>) -> Rows {
    rs.into_iter().map(Some).collect()
}

fn body_set(out: &[Vec<String>]) -> BTreeSet<(String, String)> {
    out[1..].iter().map(|r| (r[0].clone(), r[1].clone())).collect()
}

fn pairs(items: &[(&str, &str)]) -> BTreeSet<(String, String)> {
    items.iter().map(|(a, b)| (a.to_string(), b.to_string())).collect()
}

fn example_inputs() -> (Rows, Rows, Rows) {
    let regions = rows(vec![row(&["CA", "Alice"])]);
    let book = rows(vec![book_row("Acme", "CA", "US", "Bob"), book_row("Globex", "BY", "DE", "Eve")]);
    let sales = rows(vec![sales_row("Carol", "Acme"), sales_row("Dana", "Initech")]);
    (regions, book, sales)
}

#[test]
fn example_scenario_rows() {
    let (regions, book, sales) = example_inputs();
    let out = merge_rows(&regions, &book, &sales);
    assert_eq!(out[0], row(&["Company Name", "Sales Rep"]));
    assert_eq!(out.len(), 3);
    assert_eq!(body_set(&out), pairs(&[("Acme", "Carol"), ("Initech", "Dana")]));
}

#[test]
fn example_scenario_csv() {
    let regions = b"state_code,sales_rep\nCA,Alice\n".to_vec();
    let book = b"full_name,first_name,last_name,company_name,phone_number,email_address,username,address_line_1,address_line_2,city,state,postal_code,country_code,sales_rep,industry\n\
A B,A,B,Acme,1,a@x,u,1 St,,Town,CA,1,US,Bob,Tools\n\
C D,C,D,Globex,2,c@x,v,2 St,,Berlin,BE,2,DE,Eve,Tools\n".to_vec();
    let sales = b"sales_rep,company_name,prev_amount_sum,prev_invoice_count,cur_amount_sum,cur_invoice_count,amount_variance\n\
Carol,Acme,10.5,1,20.0,2,9.5\n\
Dana,Initech,1,1,2,2,1\n".to_vec();
    let out = merge_csv(&regions, &book, &sales);
    let text = String::from_utf8(out).unwrap();
    let mut lines: Vec<&str> = text.lines().collect();
    assert_eq!(lines[0], "Company Name,Sales Rep");
    lines.remove(0);
    lines.sort();
    assert_eq!(lines, vec!["Acme,Carol", "Initech,Dana"]);
}

#[test]
fn merge_twice_gives_same_output() {
    let regions = b"state_code,sales_rep\nCA,Alice\nNY,Nina\n".to_vec();
    let book = b"h1,h2,h3,h4,h5,h6,h7,h8,h9,h10,h11,h12,h13,h14,h15\n\
a,b,c,Acme,p,e,u,l1,l2,city,CA,z,US,Bob,i\n\
a,b,c,Hooli,p,e,u,l1,l2,city,TX,z,US,Tom,i\n".to_vec();
    let sales = b"h1,h2,h3,h4,h5,h6,h7\nDana,Initech,1,1,2,2,1\n".to_vec();
    let first = merge_csv(&regions, &book, &sales);
    let second = merge_csv(&regions, &book, &sales);
    assert_eq!(first, second);
    let (r, b, s) = example_inputs();
    assert_eq!(body_set(&merge_rows(&r, &b, &s)), body_set(&merge_rows(&r, &b, &s)));
}

#[test]
fn sales_rep_overrides_address_book() {
    let regions = rows(vec![row(&["CA", "Alice"])]);
    let book = rows(vec![book_row("Acme", "CA", "US", "Bob"), book_row("Hooli", "TX", "US", "Tom")]);
    let sales = rows(vec![sales_row("Carol", "Acme"), sales_row("Zed", "Hooli"), sales_row("Yan", "Acme")]);
    let out = merge_rows(&regions, &book, &sales);
    assert_eq!(body_set(&out), pairs(&[("Acme", "Yan"), ("Hooli", "Zed")]));
}

#[test]
fn state_index_wins_over_row_rep() {
    let regions = rows(vec![row(&["CA", "Alice"]), row(&["CA", "Amy"])]);
    let book = rows(vec![book_row("Acme", "CA", "US", "Bob")]);
    let out = merge_rows(&regions, &book, &rows(vec![]));
    assert_eq!(body_set(&out), pairs(&[("Acme", "Amy")]));
}

#[test]
fn unknown_state_falls_back_to_row_rep() {
    let regions = rows(vec![row(&["CA", "Alice"])]);
    let book = rows(vec![book_row("Hooli", "TX", "US", "Tom")]);
    let out = merge_rows(&regions, &book, &rows(vec![]));
    assert_eq!(body_set(&out), pairs(&[("Hooli", "Tom")]));
}

#[test]
fn non_us_rows_are_filtered() {
    let regions = rows(vec![row(&["BE", "Alice"])]);
    let book = rows(vec![
        book_row("Globex", "BE", "DE", "Eve"),
        book_row("Umbrella", "ON", "CA", "Ray"),
        book_row("Tyrell", "CA", "us", "Roy"),
    ]);
    let sales = rows(vec![sales_row("Sam", "Umbrella")]);
    let out = merge_rows(&regions, &book, &sales);
    assert_eq!(body_set(&out), pairs(&[("Umbrella", "Sam")]));
}

#[test]
fn later_address_row_overwrites_earlier() {
    let book = rows(vec![book_row("Acme", "CA", "US", "Bob"), book_row("Acme", "TX", "US", "Tom")]);
    let out = merge_rows(&rows(vec![]), &book, &rows(vec![]));
    assert_eq!(out.len(), 2);
    assert_eq!(body_set(&out), pairs(&[("Acme", "Tom")]));
}

#[test]
fn malformed_rows_are_dropped() {
    let regions: Rows = vec![Some(row(&["CA"])), None, Some(row(&["TX", "Tina"]))];
    let book: Rows = vec![
        Some(row(&["Short", "Row"])),
        None,
        Some(book_row("Hooli", "TX", "US", "Tom")),
    ];
    let sales: Rows = vec![
        Some(row(&["Carol", "Acme", "1.0"])),
        Some(row(&["Carol", "Acme", "abc", "1", "2.0", "3", "4.0"])),
        Some(row(&["Carol", "Acme", "1.0", "-1", "2.0", "3", "4.0"])),
        None,
        Some(sales_row("Dana", "Initech")),
    ];
    let out = merge_rows(&regions, &book, &sales);
    assert_eq!(body_set(&out), pairs(&[("Hooli", "Tina"), ("Initech", "Dana")]));
}

#[test]
fn empty_inputs_give_header_only() {
    let out = merge_rows(&rows(vec![]), &rows(vec![]), &rows(vec![]));
    assert_eq!(out, vec![row(&["Company Name", "Sales Rep"])]);
    let csv = merge_csv(&b"state_code,sales_rep\n".to_vec(), &Vec::new(), &Vec::new());
    assert_eq!(csv, b"Company Name,Sales Rep\n".to_vec());
}

#[test]
fn csv_output_quotes_fields() {
    let book = rows(vec![book_row("Acme, Inc.", "TX", "US", "Tom \"T\" Lee")]);
    let out = merge_rows(&rows(vec![]), &book, &rows(vec![]));
    assert_eq!(body_set(&out), pairs(&[("Acme, Inc.", "Tom \"T\" Lee")]));
    let bytes = merge_csv(
        &b"a,b\n".to_vec(),
        &b"h1,h2,h3,h4,h5,h6,h7,h8,h9,h10,h11,h12,h13,h14,h15\na,b,c,\"Acme, Inc.\",p,e,u,l1,l2,city,TX,z,US,Tom,i\n".to_vec(),
        &b"h\n".to_vec(),
    );
    assert_eq!(String::from_utf8(bytes).unwrap(), "Company Name,Sales Rep\n\"Acme, Inc.\",Tom\n");
}

#[test]
fn unequal_csv_record_is_dropped() {
    let regions = b"state_code,sales_rep\nCA,Alice,extra\nTX,Tina\n".to_vec();
    let book = b"h1,h2,h3,h4,h5,h6,h7,h8,h9,h10,h11,h12,h13,h14,h15\n\
a,b,c,Acme,p,e,u,l1,l2,city,CA,z,US,Bob,i\n\
a,b,c,Hooli,p,e,u,l1,l2,city,TX,z,US,Tom,i\n".to_vec();
    let out = merge_csv(&regions, &book, &b"h\n".to_vec());
    let text = String::from_utf8(out).unwrap();
    let mut lines: Vec<&str> = text.lines().skip(1).collect();
    lines.sort();
    assert_eq!(lines, vec!["Acme,Bob", "Hooli,Tina"]);
}

#[test]
fn parse_state_rep_rows() {
    let rec = parse_state_rep(&row(&["CA", "Alice"])).unwrap();
    assert_eq!(rec.state_code, "CA");
    assert_eq!(rec.sales_rep, "Alice");
    assert_eq!(parse_state_rep(&row(&[])).err(), Some(ParseError::MissingField(Field::StateCode)));
    assert_eq!(parse_state_rep(&row(&["CA"])).err(), Some(ParseError::MissingField(Field::SalesRep)));
}

#[test]
fn parse_address_book_rows() {
    let rec = parse_address_book(&book_row("Acme", "CA", "US", "Bob")).unwrap();
    assert_eq!(rec.company_name, "Acme");
    assert_eq!(rec.state, "CA");
    assert_eq!(rec.country_code, "US");
    assert_eq!(rec.sales_rep, "Bob");
    assert_eq!(rec.industry, "Widgets");
    assert_eq!(parse_address_book(&row(&["a", "b", "c"])).err(), Some(ParseError::MissingField(Field::CompanyName)));
    let mut short = book_row("Acme", "CA", "US", "Bob");
    short.pop();
    assert_eq!(parse_address_book(&short).err(), Some(ParseError::MissingField(Field::Industry)));
}

#[test]
fn parse_sales_rows() {
    let rec = parse_sales(&row(&["Carol", "Acme", "1.5", "0x1f", "-2e3", "+7", "nan"])).unwrap();
    assert_eq!(rec.sales_rep, "Carol");
    assert_eq!(rec.company_name, "Acme");
    assert_eq!(rec.prev_invoice_count, 31);
    assert_eq!(rec.cur_invoice_count, 7);
    assert_eq!(rec.cur_amount_sum, "-2e3");
    assert_eq!(parse_sales(&row(&["Carol", "Acme"])).err(), Some(ParseError::MissingField(Field::PrevAmountSum)));
    let bad = |i: usize, v: &str| {
        let mut r = sales_row("Carol", "Acme");
        r[i] = v.to_string();
        parse_sales(&r).err()
    };
    assert_eq!(bad(2, "x"), Some(ParseError::ImproperFormat(Field::PrevAmountSum, NumberFormat::Float)));
    assert_eq!(bad(3, "1.0"), Some(ParseError::ImproperFormat(Field::PrevInvoiceCount, NumberFormat::Count)));
    assert_eq!(bad(4, ""), Some(ParseError::ImproperFormat(Field::CurAmountSum, NumberFormat::Float)));
    assert_eq!(bad(5, "-3"), Some(ParseError::ImproperFormat(Field::CurInvoiceCount, NumberFormat::Count)));
    assert_eq!(bad(6, "1..2"), Some(ParseError::ImproperFormat(Field::AmountVariance, NumberFormat::Float)));
}

#[test]
fn count_text() {
    assert_eq!(parse_count(&"42".to_string()), Some(42));
    assert_eq!(parse_count(&"+7".to_string()), Some(7));
    assert_eq!(parse_count(&"007".to_string()), Some(7));
    assert_eq!(parse_count(&"0x1F".to_string()), Some(31));
    assert_eq!(parse_count(&"0x+a".to_string()), Some(10));
    assert_eq!(parse_count(&"0X1".to_string()), None);
    assert_eq!(parse_count(&"0x".to_string()), None);
    assert_eq!(parse_count(&"".to_string()), None);
    assert_eq!(parse_count(&"+".to_string()), None);
    assert_eq!(parse_count(&"-1".to_string()), None);
    assert_eq!(parse_count(&" 1".to_string()), None);
    assert_eq!(parse_count(&"1a".to_string()), None);
    assert_eq!(parse_count(&usize::MAX.to_string()), Some(usize::MAX));
    assert_eq!(parse_count(&"99999999999999999999999".to_string()), None);
}

#[test]
fn float_text() {
    for s in ["0", "1.5", "-2", "+.5", "5.", "1e10", "1E-3", "2.5e+7", "inf", "-Infinity", "NaN", "+nan", "INF"] {
        assert!(is_float_text(&s.to_string()), "{}", s);
        assert!(s.parse::<f32>().is_ok(), "{}", s);
    }
    for s in ["", ".", "e5", "1e", "1e+", "abc", " 1", "1 ", "1.2.3", "--1", "infin", "0x10", "1,5"] {
        assert!(!is_float_text(&s.to_string()), "{}", s);
        assert!(s.parse::<f32>().is_err(), "{}", s);
    }
}

#[test]
fn result_record_from_sales_record() {
    let s = SalesRecord {
        sales_rep: "Dana".to_string(),
        company_name: "Initech".to_string(),
        prev_amount_sum: "1".to_string(),
        prev_invoice_count: 1,
        cur_amount_sum: "2".to_string(),
        cur_invoice_count: 2,
        amount_variance: "1".to_string(),
    };
    let r = ResultRecord::from(s);
    assert_eq!(r.company_name, "Initech");
    assert_eq!(r.sales_rep, "Dana");
}

#[test]
fn rep_table_insert_get() {
    let mut t = RepTable::new();
    assert_eq!(t.len(), 0);
    t.insert("CA".to_string(), "Alice".to_string());
    t.insert("TX".to_string(), "Tina".to_string());
    t.insert("CA".to_string(), "Amy".to_string());
    assert_eq!(t.len(), 2);
    assert_eq!(t.get(&"CA".to_string()), Some(&"Amy".to_string()));
    assert_eq!(t.get(&"NY".to_string()), None);
    assert_eq!(t.pairs(), vec![("CA".to_string(), "Amy".to_string()), ("TX".to_string(), "Tina".to_string())]);
}

#[test]
fn stages_compose() {
    let (regions, book, sales) = example_inputs();
    let index = build_state_index(&regions);
    assert_eq!(index.get(&"CA".to_string()), Some(&"Alice".to_string()));
    let mut table = reconcile_addresses(&index, &book);
    assert_eq!(table.pairs(), vec![("Acme".to_string(), "Alice".to_string())]);
    apply_sales(&mut table, &sales);
    assert_eq!(table.get(&"Acme".to_string()), Some(&"Carol".to_string()));
    assert_eq!(table.get(&"Initech".to_string()), Some(&"Dana".to_string()));
    assert_eq!(table.get(&"Globex".to_string()), None);
    assert_eq!(merge_tables(&regions, &book, &sales).pairs(), table.pairs());
}

#[test]
fn plain_output_is_joined_by_commas() {
    let book = b"h1,h2,h3,h4,h5,h6,h7,h8,h9,h10,h11,h12,h13,h14,h15\n\
a,b,c,Hooli,p,e,u,l1,l2,city,TX,z,US,Tom Lee,i\n".to_vec();
    let out = merge_csv(&b"state_code,sales_rep\n".to_vec(), &book, &b"h\n".to_vec());
    assert_eq!(out, b"Company Name,Sales Rep\nHooli,Tom Lee\n".to_vec());
}

use vstd::prelude::*;
use crate::text::{count_value, float_text_ok, is_float_text, parse_count};

verus! {

/// The columns of the three input tables.
#[derive(Clone, Copy, Debug, PartialEq, Eq, Structural)]
pub enum Field {
    StateCode,
    SalesRep,
    FullName,
    FirstName,
    LastName,
    CompanyName,
    PhoneNumber,
    EmailAddress,
    Username,
    AddressLine1,
    AddressLine2,
    City,
    State,
    PostalCode,
    CountryCode,
    Industry,
    PrevAmountSum,
    PrevInvoiceCount,
    CurAmountSum,
    CurInvoiceCount,
    AmountVariance,
}

/// The format a numeric field is expected to have.
#[derive(Clone, Copy, Debug, PartialEq, Eq, Structural)]
pub enum NumberFormat {
    /// A floating-point number.
    Float,
    /// A non-negative integer that fits in `usize`.
    Count,
}

/// Why a row could not be read as a record.
#[derive(Clone, Copy, Debug, PartialEq, Eq, Structural)]
pub enum ParseError {
    MissingField(Field),
    ImproperFormat(Field, NumberFormat),
}

/// A row of text fields, in column order.
pub type Row = Vec<String>;

pub open spec fn state_rep_columns() -> Seq<Field> {
    seq![Field::StateCode, Field::SalesRep]
}

pub open spec fn address_columns() -> Seq<Field> {
    seq![
        Field::FullName,
        Field::FirstName,
        Field::LastName,
        Field::CompanyName,
        Field::PhoneNumber,
        Field::EmailAddress,
        Field::Username,
        Field::AddressLine1,
        Field::AddressLine2,
        Field::City,
        Field::State,
        Field::PostalCode,
        Field::CountryCode,
        Field::SalesRep,
        Field::Industry,
    ]
}

pub open spec fn sales_columns() -> Seq<Field> {
    seq![
        Field::SalesRep,
        Field::CompanyName,
        Field::PrevAmountSum,
        Field::PrevInvoiceCount,
        Field::CurAmountSum,
        Field::CurInvoiceCount,
        Field::AmountVariance,
    ]
}

/// The first column of `columns` that `row` lacks, if any.
pub open spec fn missing_column(row: Seq<Seq<char>>, columns: Seq<Field>) -> Option<ParseError> {
    if row.len() < columns.len() {
        Some(ParseError::MissingField(columns[row.len() as int]))
    } else {
        None
    }
}

pub open spec fn count_ok(s: Seq<char>) -> bool {
    count_value(s) is Some && count_value(s).unwrap() <= usize::MAX
}

/// What keeps a row of the regions table from being a record, if anything.
pub open spec fn state_rep_row_error(row: Seq<Seq<char>>) -> Option<ParseError> {
    missing_column(row, state_rep_columns())
}

/// What keeps a row of the address book from being a record, if anything.
pub open spec fn address_row_error(row: Seq<Seq<char>>) -> Option<ParseError> {
    missing_column(row, address_columns())
}

/// What keeps a row of the sales table from being a record, if anything:
/// the first missing column, else the first numeric field, in column order,
/// that does not have its format.
pub open spec fn sales_row_error(row: Seq<Seq<char>>) -> Option<ParseError> {
    if row.len() < sales_columns().len() {
        missing_column(row, sales_columns())
    } else if !float_text_ok(row[2]) {
        Some(ParseError::ImproperFormat(Field::PrevAmountSum, NumberFormat::Float))
    } else if !count_ok(row[3]) {
        Some(ParseError::ImproperFormat(Field::PrevInvoiceCount, NumberFormat::Count))
    } else if !float_text_ok(row[4]) {
        Some(ParseError::ImproperFormat(Field::CurAmountSum, NumberFormat::Float))
    } else if !count_ok(row[5]) {
        Some(ParseError::ImproperFormat(Field::CurInvoiceCount, NumberFormat::Count))
    } else if !float_text_ok(row[6]) {
        Some(ParseError::ImproperFormat(Field::AmountVariance, NumberFormat::Float))
    } else {
        None
    }
}

/// A row of the regions table: the sales rep assigned to a state.
pub struct StateRepRecord {
    pub state_code: String,
    pub sales_rep: String,
}

/// A row of the address book.
pub struct AddressBookRecord {
    pub full_name: String,
    pub first_name: String,
    pub last_name: String,
    pub company_name: String,
    pub phone_number: String,
    pub email_address: String,
    pub username: String,
    pub address_line_1: String,
    pub address_line_2: String,
    pub city: String,
    pub state: String,
    pub postal_code: String,
    pub country_code: String,
    pub sales_rep: String,
    pub industry: String,
}

/// A row of the sales table. The amounts are kept as the text that was
/// checked to be a floating-point number.
pub struct SalesRecord {
    pub sales_rep: String,
    pub company_name: String,
    pub prev_amount_sum: String,
    pub prev_invoice_count: usize,
    pub cur_amount_sum: String,
    pub cur_invoice_count: usize,
    pub amount_variance: String,
}

/// A company and its sales rep.
pub struct ResultRecord {
    pub company_name: String,
    pub sales_rep: String,
}

impl StateRepRecord {
    /// The record's fields in column order.
    pub open spec fn fields(&self) -> Seq<Seq<char>> {
        seq![self.state_code@, self.sales_rep@]
    }
}

impl AddressBookRecord {
    /// The record's fields in column order.
    pub open spec fn fields(&self) -> Seq<Seq<char>> {
        seq![
            self.full_name@,
            self.first_name@,
            self.last_name@,
            self.company_name@,
            self.phone_number@,
            self.email_address@,
            self.username@,
            self.address_line_1@,
            self.address_line_2@,
            self.city@,
            self.state@,
            self.postal_code@,
            self.country_code@,
            self.sales_rep@,
            self.industry@,
        ]
    }
}

impl SalesRecord {
    /// `row` (with no error) is the text of this record.
    pub open spec fn read_from(&self, row: Seq<Seq<char>>) -> bool {
        &&& self.sales_rep@ == row[0]
        &&& self.company_name@ == row[1]
        &&& self.prev_amount_sum@ == row[2]
        &&& count_value(row[3]) == Some(self.prev_invoice_count as nat)
        &&& self.cur_amount_sum@ == row[4]
        &&& count_value(row[5]) == Some(self.cur_invoice_count as nat)
        &&& self.amount_variance@ == row[6]
    }
}

impl From<SalesRecord> for ResultRecord {
    fn from(value: SalesRecord) -> (r: ResultRecord) {
        ResultRecord { company_name: value.company_name, sales_rep: value.sales_rep }
    }
}

impl vstd::std_specs::convert::FromSpecImpl<SalesRecord> for ResultRecord {
    open spec fn obeys_from_spec() -> bool {
        true
    }

    open spec fn from_spec(v: SalesRecord) -> ResultRecord {
        ResultRecord { company_name: v.company_name, sales_rep: v.sales_rep }
    }
}

fn clone_field(row: &Row, i: usize) -> (r: String)
    requires
        i < row@.len(),
    ensures
        r@ == row@[i as int]@,
{
    row[i].clone()
}

/// Reads a row of the regions table.
pub fn parse_state_rep(row: &Row) -> (r: Result<StateRepRecord, ParseError>)
    ensures
        match r {
            Ok(rec) => state_rep_row_error(row.deep_view()) is None && rec.fields() =~= row.deep_view().take(2),
            Err(e) => state_rep_row_error(row.deep_view()) == Some(e),
        },
{
    let n = row.len();
    if n == 0 {
        return Err(ParseError::MissingField(Field::StateCode));
    }
    if n == 1 {
        return Err(ParseError::MissingField(Field::SalesRep));
    }
    Ok(StateRepRecord { state_code: clone_field(row, 0), sales_rep: clone_field(row, 1) })
}

/// The address-book column at index `i`.
fn address_column(i: usize) -> (f: Field)
    requires
        i < 15,
    ensures
        f == address_columns()[i as int],
{
    match i {
        0 => Field::FullName,
        1 => Field::FirstName,
        2 => Field::LastName,
        3 => Field::CompanyName,
        4 => Field::PhoneNumber,
        5 => Field::EmailAddress,
        6 => Field::Username,
        7 => Field::AddressLine1,
        8 => Field::AddressLine2,
        9 => Field::City,
        10 => Field::State,
        11 => Field::PostalCode,
        12 => Field::CountryCode,
        13 => Field::SalesRep,
        _ => Field::Industry,
    }
}

/// Reads a row of the address book.
pub fn parse_address_book(row: &Row) -> (r: Result<AddressBookRecord, ParseError>)
    ensures
        match r {
            Ok(rec) => address_row_error(row.deep_view()) is None && rec.fields() =~= row.deep_view().take(15),
            Err(e) => address_row_error(row.deep_view()) == Some(e),
        },
{
    let n = row.len();
    if n < 15 {
        return Err(ParseError::MissingField(address_column(n)));
    }
    Ok(AddressBookRecord {
        full_name: clone_field(row, 0),
        first_name: clone_field(row, 1),
        last_name: clone_field(row, 2),
        company_name: clone_field(row, 3),
        phone_number: clone_field(row, 4),
        email_address: clone_field(row, 5),
        username: clone_field(row, 6),
        address_line_1: clone_field(row, 7),
        address_line_2: clone_field(row, 8),
        city: clone_field(row, 9),
        state: clone_field(row, 10),
        postal_code: clone_field(row, 11),
        country_code: clone_field(row, 12),
        sales_rep: clone_field(row, 13),
        industry: clone_field(row, 14),
    })
}

/// The sales column at index `i`.
fn sales_column(i: usize) -> (f: Field)
    requires
        i < 7,
    ensures
        f == sales_columns()[i as int],
{
    match i {
        0 => Field::SalesRep,
        1 => Field::CompanyName,
        2 => Field::PrevAmountSum,
        3 => Field::PrevInvoiceCount,
        4 => Field::CurAmountSum,
        5 => Field::CurInvoiceCount,
        _ => Field::AmountVariance,
    }
}

/// Reads a row of the sales table.
pub fn parse_sales(row: &Row) -> (r: Result<SalesRecord, ParseError>)
    ensures
        match r {
            Ok(rec) => sales_row_error(row.deep_view()) is None && rec.read_from(row.deep_view()),
            Err(e) => sales_row_error(row.deep_view()) == Some(e),
        },
{
    let n = row.len();
    if n < 7 {
        return Err(ParseError::MissingField(sales_column(n)));
    }
    let ghost v = row.deep_view();
    assert(forall|i: int| 0 <= i < 7 ==> v[i] == row@[i]@);
    if !is_float_text(&row[2]) {
        return Err(ParseError::ImproperFormat(Field::PrevAmountSum, NumberFormat::Float));
    }
    let prev_count = match parse_count(&row[3]) {
        Some(c) => c,
        None => {
            return Err(ParseError::ImproperFormat(Field::PrevInvoiceCount, NumberFormat::Count));
        },
    };
    if !is_float_text(&row[4]) {
        return Err(ParseError::ImproperFormat(Field::CurAmountSum, NumberFormat::Float));
    }
    let cur_count = match parse_count(&row[5]) {
        Some(c) => c,
        None => {
            return Err(ParseError::ImproperFormat(Field::CurInvoiceCount, NumberFormat::Count));
        },
    };
    if !is_float_text(&row[6]) {
        return Err(ParseError::ImproperFormat(Field::AmountVariance, NumberFormat::Float));
    }
    Ok(SalesRecord {
        sales_rep: clone_field(row, 0),
        company_name: clone_field(row, 1),
        prev_amount_sum: clone_field(row, 2),
        prev_invoice_count: prev_count,
        cur_amount_sum: clone_field(row, 4),
        cur_invoice_count: cur_count,
        amount_variance: clone_field(row, 6),
    })
}

} // verus!

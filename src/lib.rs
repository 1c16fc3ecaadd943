//! Reconciles three customer tables (regions, address book, sales activity)
//! into one table that maps each company to its current sales rep.
pub mod csv_text;
pub mod laws;
pub mod merge;
pub mod records;
pub mod table;
pub mod text;

//! The errors that reading and writing can end in.

use vstd::prelude::*;

verus! {

/// `std::io::Error`, carried through as an opaque value.
#[verifier::external_type_specification]
#[verifier::external_body]
pub struct ExIoError(std::io::Error);

/// `std::string::FromUtf8Error`, carried through as an opaque value.
#[verifier::external_type_specification]
#[verifier::external_body]
pub struct ExFromUtf8Error(std::string::FromUtf8Error);

/// `csv::Error`, carried through as an opaque value.
#[verifier::external_type_specification]
#[verifier::external_body]
pub struct ExCsvError(csv::Error);

/// What can be wrong with a binary frame.
#[derive(Debug)]
pub enum BinParseError {
    /// The frame does not begin with the magic marker.
    MagicNumberError(String),
    /// A transaction type or status byte is outside its three codes.
    TransactionError(String),
    /// The declared description length reaches past the end of the body.
    DescriptionError(String),
    /// The declared body length is outside the accepted bounds.
    MessageSizeError(String),
}

/// What can be wrong with a CSV table.
#[derive(Debug)]
pub enum CsvParseError {
    /// The CSV reader or writer itself failed on the table.
    TableError(csv::Error),
    /// A row is not the header where the header is due, or has not eight
    /// fields; it holds the fields of the row with commas between them.
    ColumnError(String),
    /// A field does not hold a value of its column's type; it holds the field.
    FieldError(String),
}

/// An error of this library.
#[derive(Debug)]
pub enum AppError {
    /// The input ended, or failed, where more bytes were expected.
    IOError(std::io::Error),
    /// A line of the text form starts with a known key but holds no valid value;
    /// it holds the line.
    TxtParseError(String),
    /// The CSV table is malformed.
    CsvParseError(CsvParseError),
    /// A binary frame is malformed.
    BinParseError(BinParseError),
    /// Bytes that should be text are not valid UTF-8.
    BinUtf8Error(std::string::FromUtf8Error),
}

/// The result type of this library.
pub type Result<T> = std::result::Result<T, AppError>;

} // verus!

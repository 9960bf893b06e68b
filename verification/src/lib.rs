//! Conversion of bank transaction records between three encodings: a framed
//! binary form, a line-oriented text form and a CSV table.
//!
//! A file of records is read into a collection, which keeps the records in
//! the order of the file; a collection can be converted to another form and
//! written out again. Every function states what it returns over the records
//! as mathematical values: [`MessageView`] for one record, a sequence of them
//! for a collection.
//!
//! - [`convertor::bin_format`]: the binary form, and why what is written is
//!   read back unchanged.
//! - [`convertor::txt_format`] and [`convertor::txt_laws`]: the text form, and
//!   the same for it.
//! - [`convertor::csv_format`]: the CSV form, which leaves the splitting and
//!   joining of rows to the `csv` crate.
//! - [`BankRecordConvertor`]: one collection in any of the three forms, and
//!   the conversion between them.

use vstd::prelude::*;
use vstd::std_specs::iter::IteratorSpec;
use vstd::std_specs::slice::into_iter_elts;

pub mod convertor;
pub mod decimal;
pub mod endian;
pub mod error;
pub mod text;

pub use convertor::bin_format::{frames_read, BinYPBankRecord};
pub use convertor::csv_format::{csv_read, CsvYPBankRecord};
pub use convertor::txt_format::{text_read, TxtYPBankRecord};
pub use convertor::{
    outcome, records_view, BankRecord, Message, MessageView, Remap, StatusTransaction,
    TypeTransaction,
};
pub use error::{AppError, BinParseError, CsvParseError, Result};

verus! {

/// The three forms of a file of records.
#[derive(Debug, Clone, Copy, PartialEq, Eq, Structural)]
pub enum DataFormat {
    /// The line-oriented text form.
    TXT,
    /// The framed binary form.
    BIN,
    /// The CSV table.
    CSV,
}

impl DataFormat {
    /// The name of the form.
    pub open spec fn name(self) -> Seq<char> {
        match self {
            DataFormat::TXT => "TXT"@,
            DataFormat::BIN => "BIN"@,
            DataFormat::CSV => "CSV"@,
        }
    }

    /// The name of the form, in upper case.
    pub fn to_string(&self) -> (name: String)
        ensures
            name@ == self.name(),
    {
        match self {
            DataFormat::TXT => "TXT".to_owned(),
            DataFormat::BIN => "BIN".to_owned(),
            DataFormat::CSV => "CSV".to_owned(),
        }
    }
}

/// How a conversion from one form to another changes descriptions. The CSV
/// form holds descriptions bare and the two others hold them between double
/// quotes, so a conversion from CSV adds the quotes and one to CSV removes
/// them; any other leaves descriptions alone.
pub open spec fn remap_between(from: DataFormat, to: DataFormat) -> Remap {
    match (from, to) {
        (DataFormat::CSV, DataFormat::TXT) => Remap::Quote,
        (DataFormat::CSV, DataFormat::BIN) => Remap::Quote,
        (DataFormat::TXT, DataFormat::CSV) => Remap::Unquote,
        (DataFormat::BIN, DataFormat::CSV) => Remap::Unquote,
        _ => Remap::Keep,
    }
}

/// Removing the double quotes of a description that has been put between
/// double quotes gives the description back, if it holds no double quote
/// itself.
pub proof fn lemma_unquote_quoted(d: Seq<char>)
    requires
        !d.contains('"'),
    ensures
        convertor::unquoted(convertor::quoted(d)) == d,
{
    let q = convertor::quoted(d);
    assert(q.drop_last() =~= seq!['"'] + d);
    lemma_unquote_after_quote(d);
}

/// A description without double quotes, behind one double quote, is what is
/// left when the double quotes are removed.
proof fn lemma_unquote_after_quote(d: Seq<char>)
    requires
        !d.contains('"'),
    ensures
        convertor::unquoted(seq!['"'] + d) == d,
    decreases d.len(),
{
    let s = seq!['"'] + d;
    if d.len() == 0 {
        assert(s.drop_last() =~= Seq::<char>::empty());
        assert(d =~= Seq::<char>::empty());
        assert(s.last() == '"');
        assert(convertor::unquoted(s.drop_last()) =~= Seq::<char>::empty());
        assert(convertor::unquoted(s) == convertor::unquoted(s.drop_last()));
    } else {
        assert(s.drop_last() =~= seq!['"'] + d.drop_last());
        assert(s.last() == d.last());
        assert(d.last() == d[d.len() - 1]);
        assert(d.contains(d.last()));
        assert forall|c: char| d.drop_last().contains(c) implies d.contains(c) by {
            let i = choose|i: int| 0 <= i < d.drop_last().len() && d.drop_last()[i] == c;
            assert(d[i] == c);
        }
        lemma_unquote_after_quote(d.drop_last());
        assert(d.drop_last().push(d.last()) =~= d);
    }
}

/// Records that are held in all three forms convert to the same records,
/// whatever the form they are converted to. The CSV form holds each
/// description bare, the text and binary forms hold it between double quotes;
/// the descriptions themselves hold no double quote.
pub proof fn lemma_cross_format_equivalence(bare: Seq<MessageView>, target: DataFormat)
    requires
        forall|i: int| 0 <= i < bare.len() ==> !(#[trigger] bare[i]).description.contains('"'),
    ensures
        remap_between(DataFormat::TXT, target).records(Remap::Quote.records(bare))
            == remap_between(DataFormat::CSV, target).records(bare),
        remap_between(DataFormat::BIN, target).records(Remap::Quote.records(bare))
            == remap_between(DataFormat::CSV, target).records(bare),
{
    let held = Remap::Quote.records(bare);
    assert(Remap::Keep.records(held) =~= held);
    assert(Remap::Keep.records(bare) =~= bare);
    assert forall|i: int| 0 <= i < bare.len() implies Remap::Unquote.record(held[i])
        == bare[i] by {
        lemma_unquote_quoted(bare[i].description);
    }
    assert(Remap::Unquote.records(held) =~= bare);
}

/// The records of one file, in one of the three forms.
#[derive(Debug, PartialEq, Clone)]
pub enum BankRecordConvertor {
    /// The records of a text file.
    TXT(TxtYPBankRecord),
    /// The records of a binary file.
    BIN(BinYPBankRecord),
    /// The records of a CSV file.
    CSV(CsvYPBankRecord),
}

impl View for BankRecordConvertor {
    type V = Seq<MessageView>;

    /// The records, in order.
    open spec fn view(&self) -> Seq<MessageView> {
        match self {
            BankRecordConvertor::TXT(record) => record@,
            BankRecordConvertor::BIN(record) => record@,
            BankRecordConvertor::CSV(record) => record@,
        }
    }
}

impl BankRecordConvertor {
    /// The form that the records are held in.
    pub open spec fn format(&self) -> DataFormat {
        match self {
            BankRecordConvertor::TXT(_) => DataFormat::TXT,
            BankRecordConvertor::BIN(_) => DataFormat::BIN,
            BankRecordConvertor::CSV(_) => DataFormat::CSV,
        }
    }

    /// The bytes that `write_to` appends, or none where the records cannot be
    /// written: those of the form that the records are held in.
    pub open spec fn encoding(&self) -> Option<Seq<u8>> {
        match self {
            BankRecordConvertor::TXT(record) => record.encoding(),
            BankRecordConvertor::BIN(record) => record.encoding(),
            BankRecordConvertor::CSV(record) => record.encoding(),
        }
    }

    /// The form that the records are held in.
    pub fn data_format(&self) -> (format: DataFormat)
        ensures
            format == self.format(),
    {
        match self {
            BankRecordConvertor::TXT(_) => DataFormat::TXT,
            BankRecordConvertor::BIN(_) => DataFormat::BIN,
            BankRecordConvertor::CSV(_) => DataFormat::CSV,
        }
    }

    /// The name of the form that the records are held in.
    pub fn to_string(&self) -> (name: String)
        ensures
            name@ == self.format().name(),
    {
        self.data_format().to_string()
    }

    /// Reads the records of a file in the given form.
    pub fn from_read(r: &[u8], format: &DataFormat) -> (res: Result<Self>)
        ensures
            res matches Ok(c) ==> c.format() == *format,
            match *format {
                DataFormat::TXT => text_read(r@, outcome(res)),
                DataFormat::BIN => frames_read(r@, outcome(res)),
                DataFormat::CSV => csv_read(r@, outcome(res)),
            },
    {
        match format {
            DataFormat::TXT => {
                let record = TxtYPBankRecord::from_read(r)?;
                Ok(BankRecordConvertor::TXT(record))
            },
            DataFormat::BIN => {
                let record = BinYPBankRecord::from_read(r)?;
                Ok(BankRecordConvertor::BIN(record))
            },
            DataFormat::CSV => {
                let record = CsvYPBankRecord::from_read(r)?;
                Ok(BankRecordConvertor::CSV(record))
            },
        }
    }

    /// Converts the records to another form. Every field of every record
    /// stays but the description, which changes as `remap_between` says.
    /// A conversion to the form that the records are held in gives them back
    /// unchanged.
    pub fn convert_to(self, dataformat: &DataFormat) -> (res: Self)
        ensures
            res.format() == *dataformat,
            res@ == remap_between(self.format(), *dataformat).records(self@),
            self.format() == *dataformat ==> res == self,
    {
        proof {
            assert(Remap::Keep.records(self@) =~= self@);
        }
        match (self, dataformat) {
            (Self::TXT(record), DataFormat::TXT) => Self::TXT(record),
            (Self::BIN(record), DataFormat::BIN) => Self::BIN(record),
            (Self::CSV(record), DataFormat::CSV) => Self::CSV(record),
            (Self::TXT(record), DataFormat::BIN) => Self::BIN(BinYPBankRecord::from(record)),
            (Self::TXT(record), DataFormat::CSV) => Self::CSV(CsvYPBankRecord::from(record)),
            (Self::BIN(record), DataFormat::TXT) => Self::TXT(TxtYPBankRecord::from(record)),
            (Self::BIN(record), DataFormat::CSV) => Self::CSV(CsvYPBankRecord::from(record)),
            (Self::CSV(record), DataFormat::TXT) => Self::TXT(TxtYPBankRecord::from(record)),
            (Self::CSV(record), DataFormat::BIN) => Self::BIN(BinYPBankRecord::from(record)),
        }
    }

    /// Appends the encoding of every record, in order, to `writer`, in the
    /// form that the records are held in. Nothing is appended where the
    /// records cannot be written, which happens only in the binary form, to a
    /// record whose body is longer than a frame can declare.
    pub fn write_to(&self, writer: &mut Vec<u8>) -> (res: Result<()>)
        ensures
            match self.encoding() {
                Some(bytes) => res is Ok && final(writer)@ == old(writer)@ + bytes,
                None => res is Err && final(writer)@ == old(writer)@,
            },
            res is Err ==> self is BIN && res matches Err(
                AppError::BinParseError(BinParseError::MessageSizeError(_)),
            ),
    {
        match self {
            BankRecordConvertor::TXT(record) => record.write_to(writer),
            BankRecordConvertor::BIN(record) => record.write_to(writer),
            BankRecordConvertor::CSV(record) => record.write_to(writer),
        }
    }

    /// Appends a record.
    pub fn push(&mut self, value: Message)
        ensures
            final(self)@ == old(self)@.push(value@),
            final(self).format() == old(self).format(),
    {
        match self {
            BankRecordConvertor::TXT(record) => record.push(value),
            BankRecordConvertor::BIN(record) => record.push(value),
            BankRecordConvertor::CSV(record) => record.push(value),
        }
    }

    /// The number of records.
    pub fn len(&self) -> (n: usize)
        ensures
            n == self@.len(),
    {
        match self {
            BankRecordConvertor::TXT(record) => record.len(),
            BankRecordConvertor::BIN(record) => record.len(),
            BankRecordConvertor::CSV(record) => record.len(),
        }
    }

    /// Whether there is no record.
    pub fn is_empty(&self) -> (b: bool)
        ensures
            b == (self@.len() == 0),
    {
        match self {
            BankRecordConvertor::TXT(record) => record.is_empty(),
            BankRecordConvertor::BIN(record) => record.is_empty(),
            BankRecordConvertor::CSV(record) => record.is_empty(),
        }
    }

    /// Removes the last record and returns it, if there is one.
    pub fn pop(&mut self) -> (last: Option<Message>)
        ensures
            final(self).format() == old(self).format(),
            match last {
                Some(m) => old(self)@.len() > 0 && m@ == old(self)@.last() && final(self)@
                    == old(self)@.drop_last(),
                None => old(self)@.len() == 0 && final(self)@ == old(self)@,
            },
    {
        match self {
            BankRecordConvertor::TXT(record) => record.pop(),
            BankRecordConvertor::BIN(record) => record.pop(),
            BankRecordConvertor::CSV(record) => record.pop(),
        }
    }

    /// An iterator over the records, in order.
    pub fn iter(&self) -> (it: std::slice::Iter<'_, Message>)
        ensures
            records_view(into_iter_elts(it)) == self@,
            it.decrease() is Some,
            it.initial_value_relation(&it),
    {
        match self {
            BankRecordConvertor::TXT(record) => record.iter(),
            BankRecordConvertor::BIN(record) => record.iter(),
            BankRecordConvertor::CSV(record) => record.iter(),
        }
    }
}

} // verus!

//! The CSV form: a header row and one row per record. Splitting bytes into
//! rows of fields, and joining them again, is the work of the `csv` crate; what
//! a field means is decided here.

use vstd::prelude::*;
use vstd::std_specs::iter::IteratorSpec;
use vstd::std_specs::slice::into_iter_elts;

use crate::convertor::bin_format::BinYPBankRecord;
use crate::convertor::txt_format::TxtYPBankRecord;
use crate::convertor::{
    outcome, records_view, BankRecord, Message, MessageView, Remap, StatusTransaction,
    TypeTransaction,
};
use crate::decimal::{decimal, parse_u64, parse_u64_spec, push_decimal};
use crate::error::{AppError, CsvParseError, Result};
use crate::text::{chars_of, push_str, same_text, string_of};

verus! {

/// The rows that the `csv` crate reads from the given bytes, each row a list
/// of fields, or none where it reports an error.
pub uninterp spec fn csv_records(bytes: Seq<u8>) -> Option<Seq<Seq<Seq<char>>>>;

/// The bytes that the `csv` crate writes for the given rows, or none where it
/// reports an error.
pub uninterp spec fn csv_text(rows: Seq<Seq<Seq<char>>>) -> Option<Seq<u8>>;

/// A row as a mathematical value: the characters of each of its fields.
pub open spec fn row_view(row: Seq<String>) -> Seq<Seq<char>> {
    Seq::new(row.len(), |j: int| row[j]@)
}

/// A table as a mathematical value: its rows, in order.
pub open spec fn table_view(rows: Seq<Vec<String>>) -> Seq<Seq<Seq<char>>> {
    Seq::new(rows.len(), |i: int| row_view(rows[i]@))
}

/// Whether every row has as many fields as the first.
pub open spec fn uniform(rows: Seq<Seq<Seq<char>>>) -> bool {
    forall|i: int| 0 <= i < rows.len() ==> (#[trigger] rows[i]).len() == rows[0].len()
}

/// Reads every row of a CSV text, the first included, with
/// `csv::ReaderBuilder::from_reader` and `csv::Reader::records`, the reader set
/// to treat no row as a header. The rows are those that `csv_records` names;
/// an error of the reader comes back as it is.
#[verifier::external_body]
fn read_table(bytes: &[u8]) -> (res: std::result::Result<Vec<Vec<String>>, csv::Error>)
    ensures
        match csv_records(bytes@) {
            Some(rows) => res matches Ok(t) && table_view(t@) == rows,
            None => res is Err,
        },
{
    let mut reader = csv::ReaderBuilder::new().has_headers(false).from_reader(bytes);
    let mut rows: Vec<Vec<String>> = Vec::new();
    for record in reader.records() {
        rows.push(record?.iter().map(String::from).collect());
    }
    Ok(rows)
}

/// Writes rows as CSV text with `csv::Writer::write_record`, one call per row,
/// into a buffer in memory. The bytes are those that `csv_text` names. The
/// writer refuses only a row whose number of fields differs from that of the
/// first row, so rows of one length are always written.
#[verifier::external_body]
fn write_table(rows: &Vec<Vec<String>>) -> (res: std::result::Result<Vec<u8>, csv::Error>)
    ensures
        match csv_text(table_view(rows@)) {
            Some(bytes) => res matches Ok(b) && b@ == bytes,
            None => res is Err,
        },
        uniform(table_view(rows@)) ==> res is Ok,
{
    let mut writer = csv::Writer::from_writer(Vec::new());
    for row in rows {
        writer.write_record(row)?;
    }
    writer.into_inner().map_err(|e| csv::Error::from(e.into_error()))
}

/// The header row: the names of the eight columns, in order.
pub open spec fn header() -> Seq<Seq<char>> {
    seq![
        "TX_ID"@,
        "TX_TYPE"@,
        "FROM_USER_ID"@,
        "TO_USER_ID"@,
        "AMOUNT"@,
        "TIMESTAMP"@,
        "STATUS"@,
        "DESCRIPTION"@,
    ]
}

/// The row of a record: numbers in decimal, the kind and the outcome by name,
/// the description as it is.
pub open spec fn row_of(m: MessageView) -> Seq<Seq<char>> {
    seq![
        decimal(m.tx_id as nat),
        m.tx_type.name(),
        decimal(m.from_user_id as nat),
        decimal(m.to_user_id as nat),
        decimal(m.amount as nat),
        decimal(m.timestamp as nat),
        m.status.name(),
        m.description,
    ]
}

/// The rows of a list of records, in order.
pub open spec fn rows_of(ms: Seq<MessageView>) -> Seq<Seq<Seq<char>>> {
    Seq::new(ms.len(), |i: int| row_of(ms[i]))
}

/// The table of a list of records: the header row and the rows of the records.
/// The table of no records is empty: it has no header row either.
pub open spec fn table_of(ms: Seq<MessageView>) -> Seq<Seq<Seq<char>>> {
    if ms.len() == 0 {
        Seq::empty()
    } else {
        seq![header()] + rows_of(ms)
    }
}

/// The ways in which a table can be wrong.
pub ghost enum CsvFailure {
    /// The row is not the header where the header is due, or has not eight
    /// fields.
    Columns(Seq<Seq<char>>),
    /// The field holds no value of its column's type.
    Field(Seq<char>),
}

/// The record of a row, or what is wrong with the row: that it has not eight
/// fields, or the first of its fields that holds no value of its column's type.
pub open spec fn parse_row(row: Seq<Seq<char>>) -> std::result::Result<MessageView, CsvFailure> {
    if row.len() != 8 {
        Err(CsvFailure::Columns(row))
    } else if parse_u64_spec(row[0]) is None {
        Err(CsvFailure::Field(row[0]))
    } else if TypeTransaction::of_name(row[1]) is None {
        Err(CsvFailure::Field(row[1]))
    } else if parse_u64_spec(row[2]) is None {
        Err(CsvFailure::Field(row[2]))
    } else if parse_u64_spec(row[3]) is None {
        Err(CsvFailure::Field(row[3]))
    } else if parse_u64_spec(row[4]) is None {
        Err(CsvFailure::Field(row[4]))
    } else if parse_u64_spec(row[5]) is None {
        Err(CsvFailure::Field(row[5]))
    } else if StatusTransaction::of_name(row[6]) is None {
        Err(CsvFailure::Field(row[6]))
    } else {
        Ok(
            MessageView {
                tx_id: parse_u64_spec(row[0])->0,
                tx_type: TypeTransaction::of_name(row[1])->0,
                from_user_id: parse_u64_spec(row[2])->0,
                to_user_id: parse_u64_spec(row[3])->0,
                amount: parse_u64_spec(row[4])->0,
                timestamp: parse_u64_spec(row[5])->0,
                status: StatusTransaction::of_name(row[6])->0,
                description: row[7],
            },
        )
    }
}

/// The records of a list of rows, or what is wrong with the first row that is
/// not well formed.
pub open spec fn parse_rows(rows: Seq<Seq<Seq<char>>>) -> std::result::Result<
    Seq<MessageView>,
    CsvFailure,
>
    decreases rows.len(),
{
    if rows.len() == 0 {
        Ok(Seq::empty())
    } else {
        match parse_rows(rows.drop_last()) {
            Err(f) => Err(f),
            Ok(ms) => match parse_row(rows.last()) {
                Err(f) => Err(f),
                Ok(m) => Ok(ms.push(m)),
            },
        }
    }
}

/// The records of a table. A table without rows holds no records; in any other
/// the first row must be the header, and each further row is a record.
pub open spec fn parse_table(rows: Seq<Seq<Seq<char>>>) -> std::result::Result<
    Seq<MessageView>,
    CsvFailure,
> {
    if rows.len() == 0 {
        Ok(Seq::empty())
    } else if rows[0] != header() {
        Err(CsvFailure::Columns(rows[0]))
    } else {
        parse_rows(rows.skip(1))
    }
}

/// The fields of a row with a comma between each two.
pub open spec fn joined(row: Seq<Seq<char>>) -> Seq<char>
    decreases row.len(),
{
    if row.len() == 0 {
        Seq::empty()
    } else if row.len() == 1 {
        row[0]
    } else {
        joined(row.drop_last()) + ","@ + row.last()
    }
}

/// Whether `e` is the error that reports the failure `f`.
pub open spec fn reports(e: AppError, f: CsvFailure) -> bool {
    match f {
        CsvFailure::Columns(row) => e matches AppError::CsvParseError(
            CsvParseError::ColumnError(t),
        ) && t@ == joined(row),
        CsvFailure::Field(field) => e matches AppError::CsvParseError(
            CsvParseError::FieldError(t),
        ) && t@ == field,
    }
}

/// An error within the first rows is the error of all the rows.
pub proof fn lemma_parse_rows_error(rows: Seq<Seq<Seq<char>>>, k: int)
    requires
        0 <= k <= rows.len(),
        parse_rows(rows.take(k)) is Err,
    ensures
        parse_rows(rows) == parse_rows(rows.take(k)),
    decreases rows.len(),
{
    if k == rows.len() {
        assert(rows.take(k) =~= rows);
    } else {
        assert(rows.drop_last().take(k) =~= rows.take(k));
        lemma_parse_rows_error(rows.drop_last(), k);
    }
}

/// The error for a row that is not the header, or has not eight fields.
fn column_error(row: &Vec<String>) -> (e: AppError)
    ensures
        reports(e, CsvFailure::Columns(row_view(row@))),
{
    let ghost fields = row_view(row@);
    let mut text: Vec<char> = Vec::new();
    let mut i: usize = 0;
    assert(fields.take(0) =~= Seq::<Seq<char>>::empty());
    while i < row.len()
        invariant
            i <= row.len(),
            fields == row_view(row@),
            text@ == joined(fields.take(i as int)),
        decreases row.len() - i,
    {
        proof {
            assert(fields.take(i + 1).drop_last() =~= fields.take(i as int));
            assert(fields.take(i + 1).last() == row@[i as int]@);
            assert(fields.take(i + 1)[0] == fields[0]);
        }
        if i > 0 {
            push_str(&mut text, ",");
        }
        push_str(&mut text, row[i].as_str());
        i += 1;
    }
    assert(fields.take(i as int) =~= fields);
    AppError::CsvParseError(CsvParseError::ColumnError(string_of(text.as_slice())))
}

/// The error for a field that holds no value of its column's type.
fn field_error(field: &String) -> (e: AppError)
    ensures
        reports(e, CsvFailure::Field(field@)),
{
    AppError::CsvParseError(CsvParseError::FieldError(field.clone()))
}

/// Reads the number in a field.
fn number_in(field: &String) -> (res: Result<u64>)
    ensures
        match parse_u64_spec(field@) {
            Some(n) => res == Ok::<u64, AppError>(n),
            None => res matches Err(e) && reports(e, CsvFailure::Field(field@)),
        },
{
    match parse_u64(chars_of(field.as_str()).as_slice()) {
        Some(n) => Ok(n),
        None => Err(field_error(field)),
    }
}

/// Reads the record of a row.
fn read_row(row: &Vec<String>) -> (res: Result<Message>)
    ensures
        match parse_row(row_view(row@)) {
            Ok(v) => res matches Ok(m) && m@ == v,
            Err(f) => res matches Err(e) && reports(e, f),
        },
{
    if row.len() != 8 {
        return Err(column_error(row));
    }
    let tx_id = number_in(&row[0])?;
    let tx_type = match TypeTransaction::from_name(chars_of(row[1].as_str()).as_slice()) {
        Some(t) => t,
        None => { return Err(field_error(&row[1])); },
    };
    let from_user_id = number_in(&row[2])?;
    let to_user_id = number_in(&row[3])?;
    let amount = number_in(&row[4])?;
    let timestamp = number_in(&row[5])?;
    let status = match StatusTransaction::from_name(chars_of(row[6].as_str()).as_slice()) {
        Some(t) => t,
        None => { return Err(field_error(&row[6])); },
    };
    Ok(
        Message {
            tx_id,
            tx_type,
            from_user_id,
            to_user_id,
            amount,
            timestamp,
            status,
            description: row[7].clone(),
        },
    )
}

/// Whether a row is the header.
fn is_header(row: &Vec<String>) -> (b: bool)
    ensures
        b == (row_view(row@) == header()),
{
    assert(header().len() == 8);
    if row.len() != 8 {
        return false;
    }
    let b = same_text(chars_of(row[0].as_str()).as_slice(), chars_of("TX_ID").as_slice())
        && same_text(chars_of(row[1].as_str()).as_slice(), chars_of("TX_TYPE").as_slice())
        && same_text(chars_of(row[2].as_str()).as_slice(), chars_of("FROM_USER_ID").as_slice())
        && same_text(chars_of(row[3].as_str()).as_slice(), chars_of("TO_USER_ID").as_slice())
        && same_text(chars_of(row[4].as_str()).as_slice(), chars_of("AMOUNT").as_slice())
        && same_text(chars_of(row[5].as_str()).as_slice(), chars_of("TIMESTAMP").as_slice())
        && same_text(chars_of(row[6].as_str()).as_slice(), chars_of("STATUS").as_slice())
        && same_text(chars_of(row[7].as_str()).as_slice(), chars_of("DESCRIPTION").as_slice());
    assert(b ==> row_view(row@) =~= header());
    b
}

/// The row of a record.
fn make_row(m: &Message) -> (row: Vec<String>)
    ensures
        row_view(row@) == row_of(m@),
{
    let mut row: Vec<String> = Vec::new();
    row.push(number_text(m.tx_id));
    row.push(m.tx_type.to_string());
    row.push(number_text(m.from_user_id));
    row.push(number_text(m.to_user_id));
    row.push(number_text(m.amount));
    row.push(number_text(m.timestamp));
    row.push(m.status.to_string());
    row.push(m.description.clone());
    assert(row_view(row@) =~= row_of(m@));
    row
}

/// The decimal text of a number.
fn number_text(n: u64) -> (s: String)
    ensures
        s@ == decimal(n as nat),
{
    let mut text: Vec<char> = Vec::new();
    push_decimal(&mut text, n);
    string_of(text.as_slice())
}

/// The header row.
fn make_header() -> (row: Vec<String>)
    ensures
        row_view(row@) == header(),
{
    let mut row: Vec<String> = Vec::new();
    row.push("TX_ID".to_owned());
    row.push("TX_TYPE".to_owned());
    row.push("FROM_USER_ID".to_owned());
    row.push("TO_USER_ID".to_owned());
    row.push("AMOUNT".to_owned());
    row.push("TIMESTAMP".to_owned());
    row.push("STATUS".to_owned());
    row.push("DESCRIPTION".to_owned());
    assert(row_view(row@) =~= header());
    row
}

/// Whether `out` is the outcome of reading a table: its records, or the error
/// that reports what is wrong with the first row that is not well formed.
pub open spec fn table_read(rows: Seq<Seq<Seq<char>>>, out: Result<Seq<MessageView>>) -> bool {
    match parse_table(rows) {
        Ok(records) => out matches Ok(c) && c == records,
        Err(f) => out matches Err(e) && reports(e, f),
    }
}

/// Whether `out` is the outcome of reading the bytes as CSV: where the `csv`
/// crate reports an error, that error; else the outcome of reading the table
/// that it splits the bytes into.
pub open spec fn csv_read(bytes: Seq<u8>, out: Result<Seq<MessageView>>) -> bool {
    match csv_records(bytes) {
        None => out matches Err(AppError::CsvParseError(CsvParseError::TableError(_))),
        Some(rows) => table_read(rows, out),
    }
}

/// The records of a CSV file, in the order of the file.
#[derive(Debug, PartialEq, Clone)]
pub struct CsvYPBankRecord {
    data: Vec<Message>,
}

impl View for CsvYPBankRecord {
    type V = Seq<MessageView>;

    /// The records, in order.
    closed spec fn view(&self) -> Seq<MessageView> {
        records_view(self.data@)
    }
}

impl CsvYPBankRecord {
    /// Reads the records of a table that has been split into rows of fields.
    pub fn from_rows(rows: Vec<Vec<String>>) -> (res: Result<Self>)
        ensures
            table_read(table_view(rows@), outcome(res)),
    {
        let ghost table = table_view(rows@);
        let mut data: Vec<Message> = Vec::new();
        if rows.len() == 0 {
            assert(records_view(data@) =~= Seq::<MessageView>::empty());
            return Ok(CsvYPBankRecord { data });
        }
        if !is_header(&rows[0]) {
            return Err(column_error(&rows[0]));
        }
        let ghost body = table.skip(1);
        let mut i: usize = 1;
        assert(body.take(0) =~= Seq::<Seq<Seq<char>>>::empty());
        assert(records_view(data@) =~= Seq::<MessageView>::empty());
        while i < rows.len()
            invariant
                1 <= i <= rows.len(),
                table == table_view(rows@),
                body == table.skip(1),
                parse_table(table) == parse_rows(body),
                parse_rows(body.take(i - 1)) == Ok::<Seq<MessageView>, CsvFailure>(
                    records_view(data@),
                ),
            decreases rows.len() - i,
        {
            proof {
                assert(body.take(i as int).drop_last() =~= body.take(i - 1));
                assert(body.take(i as int).last() == row_view(rows@[i as int]@));
            }
            match read_row(&rows[i]) {
                Ok(m) => {
                    let ghost before = records_view(data@);
                    data.push(m);
                    assert(records_view(data@) =~= before.push(m@));
                },
                Err(e) => {
                    proof {
                        lemma_parse_rows_error(body, i as int);
                    }
                    return Err(e);
                },
            }
            i += 1;
        }
        assert(body.take(i - 1) =~= body);
        Ok(CsvYPBankRecord { data })
    }

    /// Reads the records of a CSV text: the `csv` crate splits it into rows,
    /// and the rows are read as `from_rows` reads them.
    pub fn from_read(r: &[u8]) -> (res: Result<Self>)
        ensures
            csv_read(r@, outcome(res)),
    {
        match read_table(r) {
            Ok(rows) => Self::from_rows(rows),
            Err(e) => Err(AppError::CsvParseError(CsvParseError::TableError(e))),
        }
    }

    /// The table of the records: the header row and one row per record, or
    /// nothing at all where there is no record.
    pub fn to_rows(&self) -> (rows: Vec<Vec<String>>)
        ensures
            table_view(rows@) == table_of(self@),
    {
        let mut rows: Vec<Vec<String>> = Vec::new();
        if self.data.len() == 0 {
            assert(table_view(rows@) =~= table_of(self@));
            return rows;
        }
        rows.push(make_header());
        let mut i: usize = 0;
        while i < self.data.len()
            invariant
                i <= self.data.len(),
                self@.len() == self.data.len(),
                rows@.len() == i + 1,
                row_view(rows@[0]@) == header(),
                forall|k: int|
                    1 <= k <= i ==> row_view(#[trigger] rows@[k]@) == row_of(self@[k - 1]),
            decreases self.data.len() - i,
        {
            rows.push(make_row(&self.data[i]));
            i += 1;
        }
        assert(table_view(rows@) =~= table_of(self@));
        rows
    }

    /// A collection without records.
    pub fn new() -> (c: Self)
        ensures
            c@ == Seq::<MessageView>::empty(),
    {
        let c = CsvYPBankRecord { data: Vec::new() };
        assert(c@ =~= Seq::<MessageView>::empty());
        c
    }
}

/// Every row of the table of a list of records has eight fields.
pub proof fn lemma_table_uniform(ms: Seq<MessageView>)
    ensures
        uniform(table_of(ms)),
{
    let t = table_of(ms);
    assert forall|i: int| 0 <= i < t.len() implies (#[trigger] t[i]).len() == t[0].len() by {
        if i > 0 {
            assert(t[i] == row_of(ms[i - 1]));
        }
    }
}

impl From<BinYPBankRecord> for CsvYPBankRecord {
    /// The records of a binary file as those of a CSV file: each description
    /// without its double quotes.
    fn from(value: BinYPBankRecord) -> (c: Self)
        ensures
            c@ == Remap::Unquote.records(value@),
    {
        CsvYPBankRecord { data: Remap::Unquote.rebuild(value.iter()) }
    }
}

/// What `from` gives is stated on `from` itself, over the records: as a value
/// of the type it is not fixed, so no `from_spec` is promised.
impl vstd::std_specs::convert::FromSpecImpl<BinYPBankRecord> for CsvYPBankRecord {
    open spec fn obeys_from_spec() -> bool {
        false
    }

    open spec fn from_spec(v: BinYPBankRecord) -> Self {
        arbitrary()
    }
}

impl From<TxtYPBankRecord> for CsvYPBankRecord {
    /// The records of a text file as those of a CSV file: each description
    /// without its double quotes.
    fn from(value: TxtYPBankRecord) -> (c: Self)
        ensures
            c@ == Remap::Unquote.records(value@),
    {
        CsvYPBankRecord { data: Remap::Unquote.rebuild(value.iter()) }
    }
}

/// What `from` gives is stated on `from` itself, over the records: as a value
/// of the type it is not fixed, so no `from_spec` is promised.
impl vstd::std_specs::convert::FromSpecImpl<TxtYPBankRecord> for CsvYPBankRecord {
    open spec fn obeys_from_spec() -> bool {
        false
    }

    open spec fn from_spec(v: TxtYPBankRecord) -> Self {
        arbitrary()
    }
}

/// Reading the row of a record gives the record back.
pub proof fn lemma_row_round_trip(m: MessageView)
    ensures
        parse_row(row_of(m)) == Ok::<MessageView, CsvFailure>(m),
{
    crate::decimal::lemma_parse_decimal(m.tx_id);
    crate::decimal::lemma_parse_decimal(m.from_user_id);
    crate::decimal::lemma_parse_decimal(m.to_user_id);
    crate::decimal::lemma_parse_decimal(m.amount);
    crate::decimal::lemma_parse_decimal(m.timestamp);
    crate::convertor::lemma_type_names(m.tx_type);
    crate::convertor::lemma_status_names(m.status);
}

/// Reading the rows of records gives the records back.
pub proof fn lemma_rows_round_trip(ms: Seq<MessageView>)
    ensures
        parse_rows(rows_of(ms)) == Ok::<Seq<MessageView>, CsvFailure>(ms),
    decreases ms.len(),
{
    if ms.len() == 0 {
        assert(ms =~= Seq::<MessageView>::empty());
    } else {
        lemma_rows_round_trip(ms.drop_last());
        lemma_row_round_trip(ms.last());
        assert(rows_of(ms).drop_last() =~= rows_of(ms.drop_last()));
        assert(ms.drop_last().push(ms.last()) =~= ms);
    }
}

/// Reading the table of records gives the records back: whatever is written
/// as rows of fields is read from those rows unchanged.
pub proof fn lemma_table_round_trip(ms: Seq<MessageView>)
    ensures
        parse_table(table_of(ms)) == Ok::<Seq<MessageView>, CsvFailure>(ms),
{
    if ms.len() == 0 {
        assert(ms =~= Seq::<MessageView>::empty());
    } else {
        lemma_rows_round_trip(ms);
        assert(table_of(ms).skip(1) =~= rows_of(ms));
    }
}

/// The rows that a collection is written as are read as the records of the
/// collection.
pub proof fn lemma_csv_rows_round_trip(c: CsvYPBankRecord)
    ensures
        table_read(table_of(c@), Ok(c@)),
{
    lemma_table_round_trip(c@);
}

impl BankRecord for CsvYPBankRecord {
    /// What the `csv` crate writes for the table of the records.
    open spec fn encoding(&self) -> Option<Seq<u8>> {
        csv_text(table_of(self@))
    }

    fn write_to(&self, writer: &mut Vec<u8>) -> (res: Result<()>)
        ensures
            res is Ok,
    {
        let rows = self.to_rows();
        proof {
            lemma_table_uniform(self@);
        }
        match write_table(&rows) {
            Ok(bytes) => {
                writer.extend_from_slice(bytes.as_slice());
                Ok(())
            },
            Err(e) => Err(AppError::CsvParseError(CsvParseError::TableError(e))),
        }
    }

    fn push(&mut self, value: Message) {
        self.data.push(value);
        assert(self@ =~= old(self)@.push(value@));
    }

    fn len(&self) -> (n: usize) {
        self.data.len()
    }

    fn is_empty(&self) -> (b: bool) {
        self.data.is_empty()
    }

    fn pop(&mut self) -> (last: Option<Message>) {
        let last = self.data.pop();
        assert(last is Some ==> self@ =~= old(self)@.drop_last());
        assert(last is None ==> self@ =~= old(self)@);
        last
    }

    fn iter(&self) -> (it: std::slice::Iter<'_, Message>) {
        broadcast use vstd::std_specs::slice::axiom_spec_slice_iter;

        let it = self.data.iter();
        assert(into_iter_elts(it) =~= self.data@);
        it
    }
}

} // verus!

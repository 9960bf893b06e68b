//! The line-oriented text form: blocks of `KEY: value` lines, one block per
//! record, separated by blank lines.

use vstd::prelude::*;
use vstd::slice::slice_to_vec;
use vstd::std_specs::iter::IteratorSpec;
use vstd::std_specs::slice::into_iter_elts;
use vstd::utf8::{decode_utf8, encode_utf8, valid_utf8};

use crate::convertor::bin_format::BinYPBankRecord;
use crate::convertor::csv_format::CsvYPBankRecord;
use crate::convertor::{
    outcome, records_view, BankRecord, Message, MessageView, Remap, StatusTransaction,
    TypeTransaction,
};
use crate::decimal::{decimal, parse_u64, parse_u64_spec, push_decimal};
use crate::error::{AppError, Result};
use crate::text::{
    chars_of, is_blank, is_blank_line, lines_of, push_str, split_lines, starts_with, string_of,
    text_lines,
};

verus! {

/// Whether a colon and a space stand at position `i` of `s`.
pub open spec fn sep_at(s: Seq<char>, i: int) -> bool {
    0 <= i && i + 1 < s.len() && s[i] == ':' && s[i + 1] == ' '
}

/// Whether `k` is where the first colon and space of `s` stand, or the length
/// of `s` if it holds none.
pub open spec fn is_first_sep(s: Seq<char>, k: int) -> bool {
    &&& 0 <= k <= s.len()
    &&& k < s.len() ==> sep_at(s, k)
    &&& forall|j: int| 0 <= j < k ==> !sep_at(s, j)
}

/// Where the first colon and space of `s` stand, or the length of `s`.
pub open spec fn first_sep(s: Seq<char>) -> int {
    choose|k: int| is_first_sep(s, k)
}

/// There is only one first separator.
pub proof fn lemma_first_sep(s: Seq<char>, k: int)
    requires
        is_first_sep(s, k),
    ensures
        first_sep(s) == k,
{
    let c = first_sep(s);
    assert(is_first_sep(s, c));
    if c < k {
        assert(!sep_at(s, c));
    }
    if k < c {
        assert(!sep_at(s, k));
    }
}

/// The value of a `KEY: value` line: what stands between the first colon and
/// space and the next, or the end of the line. A line without a colon and space
/// has no value.
pub open spec fn line_value(line: Seq<char>) -> Option<Seq<char>> {
    let k = first_sep(line);
    if k < line.len() {
        let rest = line.skip(k + 2);
        Some(rest.take(first_sep(rest)))
    } else {
        None
    }
}

/// Finds the first colon and space at or after `from`.
fn find_sep(s: &[char], from: usize) -> (k: usize)
    requires
        from <= s.len(),
    ensures
        from <= k <= s.len(),
        first_sep(s@.skip(from as int)) == k - from,
        is_first_sep(s@.skip(from as int), k - from),
{
    let ghost tail = s@.skip(from as int);
    let mut k: usize = from;
    while k < s.len()
        invariant
            from <= k <= s.len(),
            tail == s@.skip(from as int),
            forall|j: int| 0 <= j < k - from ==> !sep_at(tail, j),
        decreases s.len() - k,
    {
        if s[k] == ':' && k + 1 < s.len() && s[k + 1] == ' ' {
            proof {
                assert(sep_at(tail, k - from));
                lemma_first_sep(tail, k - from);
            }
            return k;
        }
        assert(!sep_at(tail, k - from));
        k += 1;
    }
    proof {
        lemma_first_sep(tail, k - from);
    }
    k
}

/// The value of a `KEY: value` line.
fn value_of(line: &[char]) -> (value: Option<Vec<char>>)
    ensures
        match line_value(line@) {
            Some(v) => value matches Some(w) && w@ == v,
            None => value is None,
        },
{
    let k = find_sep(line, 0);
    assert(line@.skip(0) =~= line@);
    if k >= line.len() {
        return None;
    }
    let end = find_sep(line, k + 2);
    let mut value: Vec<char> = Vec::new();
    let mut i: usize = k + 2;
    while i < end
        invariant
            k + 2 <= i <= end <= line.len(),
            value@ == line@.subrange(k + 2, i as int),
        decreases end - i,
    {
        value.push(line[i]);
        i += 1;
    }
    assert(value@ =~= line@.skip(k + 2).take(end - (k + 2)));
    Some(value)
}

/// The number that a `KEY: value` line holds, if its value is one.
pub open spec fn line_number(line: Seq<char>) -> Option<u64> {
    match line_value(line) {
        Some(v) => parse_u64_spec(v),
        None => None,
    }
}

/// The kind of transaction that a `KEY: value` line names, if it names one.
pub open spec fn line_type(line: Seq<char>) -> Option<TypeTransaction> {
    match line_value(line) {
        Some(v) => TypeTransaction::of_name(v),
        None => None,
    }
}

/// The outcome that a `KEY: value` line names, if it names one.
pub open spec fn line_status(line: Seq<char>) -> Option<StatusTransaction> {
    match line_value(line) {
        Some(v) => StatusTransaction::of_name(v),
        None => None,
    }
}

/// The record that a block starts from: what each field holds when no line
/// sets it.
pub open spec fn default_record() -> MessageView {
    MessageView {
        tx_id: 0,
        tx_type: TypeTransaction::Transfer,
        from_user_id: 0,
        to_user_id: 0,
        amount: 0,
        timestamp: 0,
        status: StatusTransaction::Failure,
        description: Seq::empty(),
    }
}

/// The record after one more line of its block. A comment (`#`) or a line that
/// starts with no known key leaves it as it is; a line that starts with a known
/// key sets that field; where its value is missing or malformed there is no
/// record.
pub open spec fn apply_line(m: MessageView, line: Seq<char>) -> Option<MessageView> {
    if "#"@.is_prefix_of(line) {
        Some(m)
    } else if "TX_ID"@.is_prefix_of(line) {
        match line_number(line) {
            Some(n) => Some(MessageView { tx_id: n, ..m }),
            None => None,
        }
    } else if "TX_TYPE"@.is_prefix_of(line) {
        match line_type(line) {
            Some(t) => Some(MessageView { tx_type: t, ..m }),
            None => None,
        }
    } else if "FROM_USER_ID"@.is_prefix_of(line) {
        match line_number(line) {
            Some(n) => Some(MessageView { from_user_id: n, ..m }),
            None => None,
        }
    } else if "TO_USER_ID"@.is_prefix_of(line) {
        match line_number(line) {
            Some(n) => Some(MessageView { to_user_id: n, ..m }),
            None => None,
        }
    } else if "AMOUNT"@.is_prefix_of(line) {
        match line_number(line) {
            Some(n) => Some(MessageView { amount: n, ..m }),
            None => None,
        }
    } else if "TIMESTAMP"@.is_prefix_of(line) {
        match line_number(line) {
            Some(n) => Some(MessageView { timestamp: n, ..m }),
            None => None,
        }
    } else if "STATUS"@.is_prefix_of(line) {
        match line_status(line) {
            Some(t) => Some(MessageView { status: t, ..m }),
            None => None,
        }
    } else if "DESCRIPTION"@.is_prefix_of(line) {
        match line_value(line) {
            Some(v) => Some(MessageView { description: v, ..m }),
            None => None,
        }
    } else {
        Some(m)
    }
}

/// The record that a block of lines describes, or the first line of the block
/// that starts with a known key and holds no valid value.
pub open spec fn parse_block(lines: Seq<Seq<char>>) -> std::result::Result<MessageView, Seq<char>>
    decreases lines.len(),
{
    if lines.len() == 0 {
        Ok(default_record())
    } else {
        match parse_block(lines.drop_last()) {
            Err(line) => Err(line),
            Ok(m) => match apply_line(m, lines.last()) {
                Some(next) => Ok(next),
                None => Err(lines.last()),
            },
        }
    }
}

/// The lines of a block, each as a sequence of characters.
pub open spec fn lines_view(lines: Seq<String>) -> Seq<Seq<char>> {
    Seq::new(lines.len(), |i: int| lines[i]@)
}

/// Whether `line` begins with the characters of `key`.
fn has_key(line: &[char], key: &str) -> (b: bool)
    ensures
        b == key@.is_prefix_of(line@),
{
    let k = chars_of(key);
    starts_with(line, k.as_slice())
}

/// The number that a `KEY: value` line holds.
fn number_of(line: &[char]) -> (n: Option<u64>)
    ensures
        n == line_number(line@),
{
    match value_of(line) {
        Some(v) => parse_u64(v.as_slice()),
        None => None,
    }
}

/// Applies one line of a block to the record read so far.
fn read_line(m: Message, line: &[char]) -> (next: Option<Message>)
    ensures
        match apply_line(m@, line@) {
            Some(v) => next matches Some(n) && n@ == v,
            None => next is None,
        },
{
    let mut m = m;
    if has_key(line, "#") {
    } else if has_key(line, "TX_ID") {
        match number_of(line) {
            Some(n) => { m.tx_id = n; },
            None => { return None; },
        }
    } else if has_key(line, "TX_TYPE") {
        let kind = match value_of(line) {
            Some(v) => TypeTransaction::from_name(v.as_slice()),
            None => None,
        };
        match kind {
            Some(t) => { m.tx_type = t; },
            None => { return None; },
        }
    } else if has_key(line, "FROM_USER_ID") {
        match number_of(line) {
            Some(n) => { m.from_user_id = n; },
            None => { return None; },
        }
    } else if has_key(line, "TO_USER_ID") {
        match number_of(line) {
            Some(n) => { m.to_user_id = n; },
            None => { return None; },
        }
    } else if has_key(line, "AMOUNT") {
        match number_of(line) {
            Some(n) => { m.amount = n; },
            None => { return None; },
        }
    } else if has_key(line, "TIMESTAMP") {
        match number_of(line) {
            Some(n) => { m.timestamp = n; },
            None => { return None; },
        }
    } else if has_key(line, "STATUS") {
        let status = match value_of(line) {
            Some(v) => StatusTransaction::from_name(v.as_slice()),
            None => None,
        };
        match status {
            Some(t) => { m.status = t; },
            None => { return None; },
        }
    } else if has_key(line, "DESCRIPTION") {
        match value_of(line) {
            Some(v) => { m.description = string_of(v.as_slice()); },
            None => { return None; },
        }
    }
    Some(m)
}

/// The record that every block starts from.
fn new_record() -> (m: Message)
    ensures
        m@ == default_record(),
{
    Message {
        tx_id: 0,
        tx_type: TypeTransaction::Transfer,
        from_user_id: 0,
        to_user_id: 0,
        amount: 0,
        timestamp: 0,
        status: StatusTransaction::Failure,
        description: String::new(),
    }
}

/// Reads the record that a block of lines describes.
fn read_block(lines: &Vec<Vec<char>>) -> (res: Result<Message>)
    ensures
        match parse_block(lines_of(lines@)) {
            Ok(v) => res matches Ok(m) && m@ == v,
            Err(line) => res matches Err(AppError::TxtParseError(t)) && t@ == line,
        },
{
    let ghost all = lines_of(lines@);
    let mut m = new_record();
    let mut i: usize = 0;
    assert(all.take(0) =~= Seq::<Seq<char>>::empty());
    while i < lines.len()
        invariant
            i <= lines.len(),
            all == lines_of(lines@),
            all.len() == lines.len(),
            parse_block(all.take(i as int)) == Ok::<MessageView, Seq<char>>(m@),
        decreases lines.len() - i,
    {
        let line = lines[i].as_slice();
        proof {
            assert(all.take(i + 1).drop_last() =~= all.take(i as int));
            assert(all.take(i + 1).last() == line@);
        }
        match read_line(m, line) {
            Some(next) => { m = next; },
            None => {
                proof {
                    lemma_parse_block_error(all, i + 1);
                }
                return Err(AppError::TxtParseError(string_of(line)));
            },
        }
        i += 1;
    }
    assert(all.take(i as int) =~= all);
    Ok(m)
}

/// An error within a prefix of a block is the error of the block.
pub proof fn lemma_parse_block_error(lines: Seq<Seq<char>>, k: int)
    requires
        0 <= k <= lines.len(),
        parse_block(lines.take(k)) is Err,
    ensures
        parse_block(lines) == parse_block(lines.take(k)),
    decreases lines.len(),
{
    if k == lines.len() {
        assert(lines.take(k) =~= lines);
    } else {
        assert(lines.drop_last().take(k) =~= lines.take(k));
        lemma_parse_block_error(lines.drop_last(), k);
    }
}

impl Message {
    /// Reads one record from the lines of its block. Fields that no line sets
    /// keep their defaults; comments and lines that start with no known key are
    /// passed over; the first line that starts with a known key and holds no
    /// valid value is the error.
    pub fn from_str(lines: Vec<String>) -> (res: Result<Message>)
        ensures
            match parse_block(lines_view(lines@)) {
                Ok(v) => res matches Ok(m) && m@ == v,
                Err(line) => res matches Err(AppError::TxtParseError(t)) && t@ == line,
            },
    {
        let mut block: Vec<Vec<char>> = Vec::new();
        let mut i: usize = 0;
        while i < lines.len()
            invariant
                i <= lines.len(),
                block.len() == i,
                forall|j: int| 0 <= j < i ==> block@[j]@ == lines@[j]@,
            decreases lines.len() - i,
        {
            block.push(chars_of(lines[i].as_str()));
            i += 1;
        }
        assert(lines_of(block@) =~= lines_view(lines@));
        read_block(&block)
    }
}

/// What has been read of a text: the records of the blocks that have ended,
/// and the lines of the block that has not.
pub ghost struct Reading {
    pub done: Seq<MessageView>,
    pub block: Seq<Seq<char>>,
}

/// The reading after the open block has ended: its record is one more record,
/// if it had any line. Where the block is malformed, the offending line.
pub open spec fn close_block(r: Reading) -> std::result::Result<Reading, Seq<char>> {
    if r.block.len() == 0 {
        Ok(r)
    } else {
        match parse_block(r.block) {
            Ok(m) => Ok(Reading { done: r.done.push(m), block: Seq::empty() }),
            Err(line) => Err(line),
        }
    }
}

/// The reading after one more line: a blank line ends the open block, any
/// other line belongs to it.
pub open spec fn feed_line(r: Reading, line: Seq<char>) -> std::result::Result<
    Reading,
    Seq<char>,
> {
    if is_blank(line) {
        close_block(r)
    } else {
        Ok(Reading { done: r.done, block: r.block.push(line) })
    }
}

/// The reading after the given lines, in order, from the reading `r`.
pub open spec fn feed_from(r: Reading, lines: Seq<Seq<char>>) -> std::result::Result<
    Reading,
    Seq<char>,
>
    decreases lines.len(),
{
    if lines.len() == 0 {
        Ok(r)
    } else {
        match feed_from(r, lines.drop_last()) {
            Err(line) => Err(line),
            Ok(s) => feed_line(s, lines.last()),
        }
    }
}

/// The reading after the given lines, in order, from the start of a text.
pub open spec fn feed_lines(lines: Seq<Seq<char>>) -> std::result::Result<Reading, Seq<char>> {
    feed_from(Reading { done: Seq::empty(), block: Seq::empty() }, lines)
}

/// The records of a text: one for each run of lines that are not blank, in
/// order; the last run need not be followed by a blank line. Where a block is
/// malformed, the offending line of the first such block.
pub open spec fn parse_text(t: Seq<char>) -> std::result::Result<Seq<MessageView>, Seq<char>> {
    match feed_lines(text_lines(t)) {
        Err(line) => Err(line),
        Ok(r) => match close_block(r) {
            Ok(end) => Ok(end.done),
            Err(line) => Err(line),
        },
    }
}

/// An error within the first lines of a text is the error of the text.
pub proof fn lemma_feed_lines_error(lines: Seq<Seq<char>>, k: int)
    requires
        0 <= k <= lines.len(),
        feed_lines(lines.take(k)) is Err,
    ensures
        feed_lines(lines) == feed_lines(lines.take(k)),
{
    lemma_feed_from_error(Reading { done: Seq::empty(), block: Seq::empty() }, lines, k);
}

/// An error within the first lines that are fed is the error of all of them.
pub proof fn lemma_feed_from_error(r: Reading, lines: Seq<Seq<char>>, k: int)
    requires
        0 <= k <= lines.len(),
        feed_from(r, lines.take(k)) is Err,
    ensures
        feed_from(r, lines) == feed_from(r, lines.take(k)),
    decreases lines.len(),
{
    if k == lines.len() {
        assert(lines.take(k) =~= lines);
    } else {
        assert(lines.drop_last().take(k) =~= lines.take(k));
        lemma_feed_from_error(r, lines.drop_last(), k);
    }
}

/// The line of a field: the key, a colon and a space, the value.
pub open spec fn field_line(key: Seq<char>, value: Seq<char>) -> Seq<char> {
    key + ": "@ + value
}

/// The line of a field with the line feed that ends it.
pub open spec fn text_line(key: Seq<char>, value: Seq<char>) -> Seq<char> {
    field_line(key, value) + "\n"@
}

/// The text of one record: a line for each field, in the fixed order of the
/// fields, and a blank line.
pub open spec fn record_text(m: MessageView) -> Seq<char> {
    text_line("TX_ID"@, decimal(m.tx_id as nat)) + text_line("TX_TYPE"@, m.tx_type.name())
        + text_line("FROM_USER_ID"@, decimal(m.from_user_id as nat)) + text_line(
        "TO_USER_ID"@,
        decimal(m.to_user_id as nat),
    ) + text_line("AMOUNT"@, decimal(m.amount as nat)) + text_line(
        "TIMESTAMP"@,
        decimal(m.timestamp as nat),
    ) + text_line("STATUS"@, m.status.name()) + text_line("DESCRIPTION"@, m.description)
        + "\n"@
}

/// The text of a list of records: the texts of the records, in order.
pub open spec fn records_text(ms: Seq<MessageView>) -> Seq<char>
    decreases ms.len(),
{
    if ms.len() == 0 {
        Seq::empty()
    } else {
        records_text(ms.drop_last()) + record_text(ms.last())
    }
}

impl Message {
    /// Appends the text of this record to `out`.
    fn push_text(&self, out: &mut Vec<char>)
        ensures
            final(out)@ == old(out)@ + record_text(self@),
    {
        push_number_line(out, "TX_ID", self.tx_id);
        push_line(out, "TX_TYPE", self.tx_type.to_string().as_str());
        push_number_line(out, "FROM_USER_ID", self.from_user_id);
        push_number_line(out, "TO_USER_ID", self.to_user_id);
        push_number_line(out, "AMOUNT", self.amount);
        push_number_line(out, "TIMESTAMP", self.timestamp);
        push_line(out, "STATUS", self.status.to_string().as_str());
        push_line(out, "DESCRIPTION", self.description.as_str());
        push_str(out, "\n");
        assert(out@ =~= old(out)@ + record_text(self@));
    }

    /// The text of this record: eight `KEY: value` lines in the fixed order of
    /// the fields, and a blank line.
    pub fn to_string(&self) -> (text: String)
        ensures
            text@ == record_text(self@),
    {
        let mut out: Vec<char> = Vec::new();
        self.push_text(&mut out);
        string_of(out.as_slice())
    }
}

/// Whether `out` is the outcome of reading the bytes as text: the records of
/// the text; for bytes that are not valid UTF-8 the error that says so; for a
/// malformed block the error that holds its offending line.
pub open spec fn text_read(bytes: Seq<u8>, out: Result<Seq<MessageView>>) -> bool {
    if !valid_utf8(bytes) {
        out matches Err(AppError::BinUtf8Error(_))
    } else {
        match parse_text(decode_utf8(bytes)) {
            Ok(records) => out matches Ok(c) && c == records,
            Err(line) => out matches Err(AppError::TxtParseError(t)) && t@ == line,
        }
    }
}

/// Appends the line of a field.
fn push_line(out: &mut Vec<char>, key: &str, value: &str)
    ensures
        final(out)@ == old(out)@ + text_line(key@, value@),
{
    push_str(out, key);
    push_str(out, ": ");
    push_str(out, value);
    push_str(out, "\n");
    assert(out@ =~= old(out)@ + text_line(key@, value@));
}

/// Appends the line of a field that holds a number.
fn push_number_line(out: &mut Vec<char>, key: &str, value: u64)
    ensures
        final(out)@ == old(out)@ + text_line(key@, decimal(value as nat)),
{
    push_str(out, key);
    push_str(out, ": ");
    push_decimal(out, value);
    push_str(out, "\n");
    assert(out@ =~= old(out)@ + text_line(key@, decimal(value as nat)));
}

/// The records of a text file, in the order of the file.
#[derive(Debug, PartialEq, Clone)]
pub struct TxtYPBankRecord {
    data: Vec<Message>,
}

impl View for TxtYPBankRecord {
    type V = Seq<MessageView>;

    /// The records, in order.
    closed spec fn view(&self) -> Seq<MessageView> {
        records_view(self.data@)
    }
}

impl TxtYPBankRecord {
    /// Reads the records of a text. The bytes must be valid UTF-8; then the
    /// text is read block by block.
    pub fn from_read(r: &[u8]) -> (res: Result<Self>)
        ensures
            text_read(r@, outcome(res)),
    {
        let text = match String::from_utf8(slice_to_vec(r)) {
            Ok(text) => text,
            Err(e) => { return Err(AppError::BinUtf8Error(e)); },
        };
        proof {
            vstd::utf8::encode_utf8_decode_utf8(text@);
        }
        let chars = chars_of(text.as_str());
        let lines = split_lines(chars.as_slice());
        let ghost all = lines_of(lines@);
        let mut data: Vec<Message> = Vec::new();
        let mut block: Vec<Vec<char>> = Vec::new();
        let mut i: usize = 0;
        assert(all.take(0) =~= Seq::<Seq<char>>::empty());
        assert(records_view(data@) =~= Seq::<MessageView>::empty());
        assert(lines_of(block@) =~= Seq::<Seq<char>>::empty());
        while i < lines.len()
            invariant
                i <= lines.len(),
                all == lines_of(lines@),
                all.len() == lines.len(),
                valid_utf8(r@),
                all == text_lines(decode_utf8(r@)),
                feed_lines(all.take(i as int)) == Ok::<Reading, Seq<char>>(
                    Reading { done: records_view(data@), block: lines_of(block@) },
                ),
            decreases lines.len() - i,
        {
            proof {
                assert(all.take(i + 1).drop_last() =~= all.take(i as int));
                assert(all.take(i + 1).last() == lines@[i as int]@);
            }
            if is_blank_line(lines[i].as_slice()) {
                if block.len() > 0 {
                    match read_block(&block) {
                        Ok(m) => {
                            let ghost before = records_view(data@);
                            data.push(m);
                            block = Vec::new();
                            assert(records_view(data@) =~= before.push(m@));
                            assert(lines_of(block@) =~= Seq::<Seq<char>>::empty());
                        },
                        Err(e) => {
                            proof {
                                lemma_feed_lines_error(all, i + 1);
                            }
                            return Err(e);
                        },
                    }
                }
            } else {
                let ghost before = lines_of(block@);
                let line = slice_to_vec(lines[i].as_slice());
                block.push(line);
                assert(lines_of(block@) =~= before.push(lines@[i as int]@));
            }
            i += 1;
        }
        assert(all.take(i as int) =~= all);
        if block.len() > 0 {
            match read_block(&block) {
                Ok(m) => {
                    let ghost before = records_view(data@);
                    data.push(m);
                    assert(records_view(data@) =~= before.push(m@));
                },
                Err(e) => { return Err(e); },
            }
        }
        Ok(TxtYPBankRecord { data })
    }

    /// A collection without records.
    pub fn new() -> (c: Self)
        ensures
            c@ == Seq::<MessageView>::empty(),
    {
        let c = TxtYPBankRecord { data: Vec::new() };
        assert(c@ =~= Seq::<MessageView>::empty());
        c
    }
}

impl Default for TxtYPBankRecord {
    fn default() -> (c: Self)
        ensures
            c@ == Seq::<MessageView>::empty(),
    {
        Self::new()
    }
}

impl From<BinYPBankRecord> for TxtYPBankRecord {
    /// The records of a binary file as those of a text file: each as it is.
    fn from(value: BinYPBankRecord) -> (c: Self)
        ensures
            c@ == Remap::Keep.records(value@),
    {
        TxtYPBankRecord { data: Remap::Keep.rebuild(value.iter()) }
    }
}

/// What `from` gives is stated on `from` itself, over the records: as a value
/// of the type it is not fixed, so no `from_spec` is promised.
impl vstd::std_specs::convert::FromSpecImpl<BinYPBankRecord> for TxtYPBankRecord {
    open spec fn obeys_from_spec() -> bool {
        false
    }

    open spec fn from_spec(v: BinYPBankRecord) -> Self {
        arbitrary()
    }
}

impl From<CsvYPBankRecord> for TxtYPBankRecord {
    /// The records of a CSV file as those of a text file: each description
    /// between two double quotes.
    fn from(value: CsvYPBankRecord) -> (c: Self)
        ensures
            c@ == Remap::Quote.records(value@),
    {
        TxtYPBankRecord { data: Remap::Quote.rebuild(value.iter()) }
    }
}

/// What `from` gives is stated on `from` itself, over the records: as a value
/// of the type it is not fixed, so no `from_spec` is promised.
impl vstd::std_specs::convert::FromSpecImpl<CsvYPBankRecord> for TxtYPBankRecord {
    open spec fn obeys_from_spec() -> bool {
        false
    }

    open spec fn from_spec(v: CsvYPBankRecord) -> Self {
        arbitrary()
    }
}

/// A collection that was read from a text can be written, and what is written
/// is read as the same records, if none of their descriptions ends with a
/// carriage return.
pub proof fn lemma_txt_round_trip(bytes: Seq<u8>, c: TxtYPBankRecord)
    requires
        text_read(bytes, Ok(c@)),
        forall|i: int|
            0 <= i < c@.len() ==> !crate::convertor::txt_laws::ends_with_cr(
                #[trigger] c@[i].description,
            ),
    ensures
        c.encoding() matches Some(out) && text_read(out, Ok(c@)),
{
    crate::convertor::txt_laws::lemma_text_round_trip(decode_utf8(bytes), c@);
    vstd::utf8::encode_utf8_valid_utf8(records_text(c@));
    vstd::utf8::encode_utf8_decode_utf8(records_text(c@));
}

impl BankRecord for TxtYPBankRecord {
    /// The texts of the records, in order, encoded as UTF-8.
    open spec fn encoding(&self) -> Option<Seq<u8>> {
        Some(encode_utf8(records_text(self@)))
    }

    fn write_to(&self, writer: &mut Vec<u8>) -> (res: Result<()>) {
        let mut out: Vec<char> = Vec::new();
        let mut i: usize = 0;
        assert(self@.take(0) =~= Seq::<MessageView>::empty());
        while i < self.data.len()
            invariant
                i <= self.data.len(),
                self@.len() == self.data.len(),
                out@ == records_text(self@.take(i as int)),
            decreases self.data.len() - i,
        {
            proof {
                assert(self@.take(i + 1).drop_last() =~= self@.take(i as int));
                assert(self@.take(i + 1).last() == self.data@[i as int]@);
            }
            self.data[i].push_text(&mut out);
            i += 1;
        }
        assert(self@.take(i as int) =~= self@);
        let text = string_of(out.as_slice());
        writer.extend_from_slice(text.as_str().as_bytes());
        Ok(())
    }

    fn push(&mut self, value: Message) {
        self.data.push(value);
        assert(self@ =~= old(self)@.push(value@));
    }

    fn len(&self) -> (n: usize) {
        self.data.len()
    }

    fn is_empty(&self) -> (b: bool) {
        self.data.is_empty()
    }

    fn pop(&mut self) -> (last: Option<Message>) {
        let last = self.data.pop();
        assert(last is Some ==> self@ =~= old(self)@.drop_last());
        assert(last is None ==> self@ =~= old(self)@);
        last
    }

    fn iter(&self) -> (it: std::slice::Iter<'_, Message>) {
        broadcast use vstd::std_specs::slice::axiom_spec_slice_iter;

        let it = self.data.iter();
        assert(into_iter_elts(it) =~= self.data@);
        it
    }
}

} // verus!

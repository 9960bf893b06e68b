//! Why text that this library writes is read back as the records it was
//! written from.

use vstd::prelude::*;

use crate::convertor::txt_format::{
    apply_line, close_block, default_record, feed_from, feed_lines, field_line, first_sep,
    is_first_sep, lemma_first_sep, line_value, parse_block, parse_text, record_text,
    records_text, sep_at, Reading,
};
use crate::convertor::{MessageView, StatusTransaction, TypeTransaction};
use crate::decimal::{all_digits, decimal, is_digit, lemma_decimal_digits, lemma_parse_decimal};
use crate::text::{ended_lines, is_blank, is_space, strip_cr, tail_line, text_lines};

verus! {

/// Whether a text holds no line feed.
pub open spec fn no_line_feed(l: Seq<char>) -> bool {
    forall|i: int| 0 <= i < l.len() ==> #[trigger] l[i] != '\n'
}

/// Whether a text holds no colon.
pub open spec fn no_colon(l: Seq<char>) -> bool {
    forall|i: int| 0 <= i < l.len() ==> #[trigger] l[i] != ':'
}

/// Whether a text holds no colon and space.
pub open spec fn no_sep(l: Seq<char>) -> bool {
    forall|i: int| !sep_at(l, i)
}

/// Whether a text can be the value of a line: it holds no line feed and no
/// colon and space.
pub open spec fn plain(l: Seq<char>) -> bool {
    no_line_feed(l) && no_sep(l)
}

/// Whether a text ends with a carriage return.
pub open spec fn ends_with_cr(l: Seq<char>) -> bool {
    l.len() > 0 && l.last() == '\r'
}

/// Text without a line feed, put behind a text, adds to its unfinished line
/// and to nothing else.
pub proof fn lemma_lines_extend(x: Seq<char>, l: Seq<char>)
    requires
        no_line_feed(l),
    ensures
        ended_lines(x + l) == ended_lines(x),
        tail_line(x + l) == tail_line(x) + l,
    decreases l.len(),
{
    if l.len() == 0 {
        assert(x + l =~= x);
        assert(tail_line(x) + l =~= tail_line(x));
    } else {
        let p = l.drop_last();
        assert((x + l).drop_last() =~= x + p);
        assert((x + l).last() == l.last());
        assert(l.last() == l[l.len() - 1]);
        lemma_lines_extend(x, p);
        assert((tail_line(x) + p).push(l.last()) =~= tail_line(x) + l);
    }
}

/// A line and a line feed, put behind a text that ends where a line ends, add
/// that line to its lines.
pub proof fn lemma_lines_append(x: Seq<char>, l: Seq<char>)
    requires
        tail_line(x).len() == 0,
        no_line_feed(l),
    ensures
        ended_lines(x + (l + "\n"@)) == ended_lines(x).push(strip_cr(l)),
        tail_line(x + (l + "\n"@)).len() == 0,
{
    reveal_strlit("\n");
    let y = x + l;
    let z = x + (l + "\n"@);
    lemma_lines_extend(x, l);
    assert(z.drop_last() =~= y);
    assert(z.last() == '\n');
    assert(tail_line(x) + l =~= l);
}

/// Every text has a first colon and space, or none.
pub proof fn lemma_first_sep_exists(s: Seq<char>)
    ensures
        is_first_sep(s, first_sep(s)),
{
    lemma_sep_search(s, 0);
}

/// If no colon and space stands before `k`, a first one stands at `k` or
/// behind it, or there is none.
proof fn lemma_sep_search(s: Seq<char>, k: int)
    requires
        0 <= k <= s.len(),
        forall|j: int| 0 <= j < k ==> !sep_at(s, j),
    ensures
        exists|c: int| is_first_sep(s, c),
    decreases s.len() - k,
{
    if k == s.len() {
        assert(is_first_sep(s, k));
    } else if sep_at(s, k) {
        assert(is_first_sep(s, k));
    } else {
        lemma_sep_search(s, k + 1);
    }
}

/// The value of a line that is a key without a colon, a colon and a space, and
/// a text without a colon and space, is that text.
pub proof fn lemma_key_line_value(key: Seq<char>, v: Seq<char>)
    requires
        no_colon(key),
        no_sep(v),
    ensures
        line_value(key + ": "@ + v) == Some(v),
{
    reveal_strlit(": ");
    let line = key + ": "@ + v;
    let k = key.len() as int;
    assert(line[k] == ':');
    assert(line[k + 1] == ' ');
    assert forall|j: int| 0 <= j < k implies !sep_at(line, j) by {
        assert(line[j] == key[j]);
    }
    assert(is_first_sep(line, k));
    lemma_first_sep(line, k);
    let rest = line.skip(k + 2);
    assert(rest =~= v);
    assert(is_first_sep(v, v.len() as int));
    lemma_first_sep(v, v.len() as int);
    assert(v.take(v.len() as int) =~= v);
}

/// A text of digits holds no colon and space, and no line feed.
pub proof fn lemma_digits_plain(v: Seq<char>)
    requires
        all_digits(v),
    ensures
        plain(v),
        !ends_with_cr(v),
{
    assert forall|i: int| !sep_at(v, i) by {
        if 0 <= i < v.len() {
            assert(is_digit(v[i]));
        }
    }
    assert forall|i: int| 0 <= i < v.len() implies #[trigger] v[i] != '\n' by {
        assert(is_digit(v[i]));
    }
    if v.len() > 0 {
        assert(is_digit(v[v.len() - 1]));
    }
}

/// A text that differs from another at some place does not begin it.
pub proof fn lemma_differs(p: Seq<char>, s: Seq<char>, i: int)
    requires
        0 <= i < p.len(),
        i < s.len() ==> p[i] != s[i],
    ensures
        !p.is_prefix_of(s),
{
    if p.len() <= s.len() {
        assert(s.subrange(0, p.len() as int)[i] == s[i]);
    }
}

/// A key begins the line of that key.
pub proof fn lemma_starts(key: Seq<char>, v: Seq<char>)
    ensures
        key.is_prefix_of(key + ": "@ + v),
        forall|i: int| 0 <= i < key.len() ==> (key + ": "@ + v)[i] == key[i],
        (key + ": "@ + v).len() > key.len(),
{
    reveal_strlit(": ");
    assert((key + ": "@ + v).subrange(0, key.len() as int) =~= key);
}

/// What is known of the keys: their first letters, and that none holds a
/// colon.
pub proof fn lemma_keys()
    ensures
        "#"@.len() == 1 && "#"@[0] == '#',
        "TX_ID"@.len() == 5 && "TX_ID"@[0] == 'T' && "TX_ID"@[1] == 'X' && "TX_ID"@[3] == 'I',
        "TX_TYPE"@.len() == 7 && "TX_TYPE"@[0] == 'T' && "TX_TYPE"@[1] == 'X' && "TX_TYPE"@[3]
            == 'T',
        "FROM_USER_ID"@.len() == 12 && "FROM_USER_ID"@[0] == 'F',
        "TO_USER_ID"@.len() == 10 && "TO_USER_ID"@[0] == 'T' && "TO_USER_ID"@[1] == 'O',
        "AMOUNT"@.len() == 6 && "AMOUNT"@[0] == 'A',
        "TIMESTAMP"@.len() == 9 && "TIMESTAMP"@[0] == 'T' && "TIMESTAMP"@[1] == 'I',
        "STATUS"@.len() == 6 && "STATUS"@[0] == 'S',
        "DESCRIPTION"@.len() == 11 && "DESCRIPTION"@[0] == 'D',
        no_colon("TX_ID"@),
        no_colon("TX_TYPE"@),
        no_colon("FROM_USER_ID"@),
        no_colon("TO_USER_ID"@),
        no_colon("AMOUNT"@),
        no_colon("TIMESTAMP"@),
        no_colon("STATUS"@),
        no_colon("DESCRIPTION"@),
        no_line_feed("TX_ID"@),
        no_line_feed("TX_TYPE"@),
        no_line_feed("FROM_USER_ID"@),
        no_line_feed("TO_USER_ID"@),
        no_line_feed("AMOUNT"@),
        no_line_feed("TIMESTAMP"@),
        no_line_feed("STATUS"@),
        no_line_feed("DESCRIPTION"@),
{
    reveal_strlit("#");
    reveal_strlit("TX_ID");
    reveal_strlit("TX_TYPE");
    reveal_strlit("FROM_USER_ID");
    reveal_strlit("TO_USER_ID");
    reveal_strlit("AMOUNT");
    reveal_strlit("TIMESTAMP");
    reveal_strlit("STATUS");
    reveal_strlit("DESCRIPTION");
}

/// The names of the kinds and of the outcomes hold no colon and space, no line
/// feed and no carriage return.
pub proof fn lemma_names_plain(t: TypeTransaction, s: StatusTransaction)
    ensures
        plain(t.name()),
        plain(s.name()),
        !ends_with_cr(t.name()),
        !ends_with_cr(s.name()),
{
    reveal_strlit("DEPOSIT");
    reveal_strlit("TRANSFER");
    reveal_strlit("WITHDRAWAL");
    reveal_strlit("SUCCESS");
    reveal_strlit("FAILURE");
    reveal_strlit("PENDING");
    assert(no_colon(t.name()));
    assert(no_colon(s.name()));
}

/// The line of the identifier sets that field.
pub proof fn lemma_line_tx_id(m: MessageView, n: u64)
    ensures
        apply_line(m, field_line("TX_ID"@, decimal(n as nat))) == Some(
            MessageView { tx_id: n, ..m },
        ),
{
    let v = decimal(n as nat);
    let line = "TX_ID"@ + ": "@ + v;
    lemma_keys();
    lemma_starts("TX_ID"@, v);
    lemma_decimal_digits(n as nat);
    lemma_digits_plain(v);
    lemma_parse_decimal(n);
    lemma_key_line_value("TX_ID"@, v);
    lemma_differs("#"@, line, 0);
}

/// The line of the kind sets that field.
pub proof fn lemma_line_tx_type(m: MessageView, t: TypeTransaction)
    ensures
        apply_line(m, field_line("TX_TYPE"@, t.name())) == Some(
            MessageView { tx_type: t, ..m },
        ),
{
    let v = t.name();
    let line = "TX_TYPE"@ + ": "@ + v;
    lemma_keys();
    lemma_starts("TX_TYPE"@, v);
    lemma_names_plain(t, StatusTransaction::Success);
    crate::convertor::lemma_type_names(t);
    lemma_key_line_value("TX_TYPE"@, v);
    lemma_differs("#"@, line, 0);
    lemma_differs("TX_ID"@, line, 3);
}

/// The line of the sender sets that field.
pub proof fn lemma_line_from_user_id(m: MessageView, n: u64)
    ensures
        apply_line(m, field_line("FROM_USER_ID"@, decimal(n as nat))) == Some(
            MessageView { from_user_id: n, ..m },
        ),
{
    let v = decimal(n as nat);
    let line = "FROM_USER_ID"@ + ": "@ + v;
    lemma_keys();
    lemma_starts("FROM_USER_ID"@, v);
    lemma_decimal_digits(n as nat);
    lemma_digits_plain(v);
    lemma_parse_decimal(n);
    lemma_key_line_value("FROM_USER_ID"@, v);
    lemma_differs("#"@, line, 0);
    lemma_differs("TX_ID"@, line, 0);
    lemma_differs("TX_TYPE"@, line, 0);
}

/// The line of the receiver sets that field.
pub proof fn lemma_line_to_user_id(m: MessageView, n: u64)
    ensures
        apply_line(m, field_line("TO_USER_ID"@, decimal(n as nat))) == Some(
            MessageView { to_user_id: n, ..m },
        ),
{
    let v = decimal(n as nat);
    let line = "TO_USER_ID"@ + ": "@ + v;
    lemma_keys();
    lemma_starts("TO_USER_ID"@, v);
    lemma_decimal_digits(n as nat);
    lemma_digits_plain(v);
    lemma_parse_decimal(n);
    lemma_key_line_value("TO_USER_ID"@, v);
    lemma_differs("#"@, line, 0);
    lemma_differs("TX_ID"@, line, 1);
    lemma_differs("TX_TYPE"@, line, 1);
    lemma_differs("FROM_USER_ID"@, line, 0);
}

/// The line of the amount sets that field.
pub proof fn lemma_line_amount(m: MessageView, n: u64)
    ensures
        apply_line(m, field_line("AMOUNT"@, decimal(n as nat))) == Some(
            MessageView { amount: n, ..m },
        ),
{
    let v = decimal(n as nat);
    let line = "AMOUNT"@ + ": "@ + v;
    lemma_keys();
    lemma_starts("AMOUNT"@, v);
    lemma_decimal_digits(n as nat);
    lemma_digits_plain(v);
    lemma_parse_decimal(n);
    lemma_key_line_value("AMOUNT"@, v);
    lemma_differs("#"@, line, 0);
    lemma_differs("TX_ID"@, line, 0);
    lemma_differs("TX_TYPE"@, line, 0);
    lemma_differs("FROM_USER_ID"@, line, 0);
    lemma_differs("TO_USER_ID"@, line, 0);
}

/// The line of the time sets that field.
pub proof fn lemma_line_timestamp(m: MessageView, n: u64)
    ensures
        apply_line(m, field_line("TIMESTAMP"@, decimal(n as nat))) == Some(
            MessageView { timestamp: n, ..m },
        ),
{
    let v = decimal(n as nat);
    let line = "TIMESTAMP"@ + ": "@ + v;
    lemma_keys();
    lemma_starts("TIMESTAMP"@, v);
    lemma_decimal_digits(n as nat);
    lemma_digits_plain(v);
    lemma_parse_decimal(n);
    lemma_key_line_value("TIMESTAMP"@, v);
    lemma_differs("#"@, line, 0);
    lemma_differs("TX_ID"@, line, 1);
    lemma_differs("TX_TYPE"@, line, 1);
    lemma_differs("FROM_USER_ID"@, line, 0);
    lemma_differs("TO_USER_ID"@, line, 1);
    lemma_differs("AMOUNT"@, line, 0);
}

/// The line of the outcome sets that field.
pub proof fn lemma_line_status(m: MessageView, t: StatusTransaction)
    ensures
        apply_line(m, field_line("STATUS"@, t.name())) == Some(
            MessageView { status: t, ..m },
        ),
{
    let v = t.name();
    let line = "STATUS"@ + ": "@ + v;
    lemma_keys();
    lemma_starts("STATUS"@, v);
    lemma_names_plain(TypeTransaction::Deposit, t);
    crate::convertor::lemma_status_names(t);
    lemma_key_line_value("STATUS"@, v);
    lemma_differs("#"@, line, 0);
    lemma_differs("TX_ID"@, line, 0);
    lemma_differs("TX_TYPE"@, line, 0);
    lemma_differs("FROM_USER_ID"@, line, 0);
    lemma_differs("TO_USER_ID"@, line, 0);
    lemma_differs("AMOUNT"@, line, 0);
    lemma_differs("TIMESTAMP"@, line, 0);
}

/// The line of a description without a colon and space sets that field.
pub proof fn lemma_line_description(m: MessageView, d: Seq<char>)
    requires
        no_sep(d),
    ensures
        apply_line(m, field_line("DESCRIPTION"@, d)) == Some(
            MessageView { description: d, ..m },
        ),
{
    let v = d;
    let line = "DESCRIPTION"@ + ": "@ + v;
    lemma_keys();
    lemma_starts("DESCRIPTION"@, v);
    lemma_key_line_value("DESCRIPTION"@, v);
    lemma_differs("#"@, line, 0);
    lemma_differs("TX_ID"@, line, 0);
    lemma_differs("TX_TYPE"@, line, 0);
    lemma_differs("FROM_USER_ID"@, line, 0);
    lemma_differs("TO_USER_ID"@, line, 0);
    lemma_differs("AMOUNT"@, line, 0);
    lemma_differs("TIMESTAMP"@, line, 0);
    lemma_differs("STATUS"@, line, 0);
}

/// The eight lines of a record.
pub open spec fn record_lines(m: MessageView) -> Seq<Seq<char>> {
    seq![
        field_line("TX_ID"@, decimal(m.tx_id as nat)),
        field_line("TX_TYPE"@, m.tx_type.name()),
        field_line("FROM_USER_ID"@, decimal(m.from_user_id as nat)),
        field_line("TO_USER_ID"@, decimal(m.to_user_id as nat)),
        field_line("AMOUNT"@, decimal(m.amount as nat)),
        field_line("TIMESTAMP"@, decimal(m.timestamp as nat)),
        field_line("STATUS"@, m.status.name()),
        field_line("DESCRIPTION"@, m.description),
    ]
}

/// The block of the eight lines of a record describes that record.
pub proof fn lemma_record_block(m: MessageView)
    requires
        no_sep(m.description),
    ensures
        parse_block(record_lines(m)) == Ok::<MessageView, Seq<char>>(m),
{
    let ls = record_lines(m);
    let b0 = ls.take(0);
    let b1 = ls.take(1);
    let b2 = ls.take(2);
    let b3 = ls.take(3);
    let b4 = ls.take(4);
    let b5 = ls.take(5);
    let b6 = ls.take(6);
    let b7 = ls.take(7);
    let m0 = default_record();
    let m1 = MessageView { tx_id: m.tx_id, ..m0 };
    let m2 = MessageView { tx_type: m.tx_type, ..m1 };
    let m3 = MessageView { from_user_id: m.from_user_id, ..m2 };
    let m4 = MessageView { to_user_id: m.to_user_id, ..m3 };
    let m5 = MessageView { amount: m.amount, ..m4 };
    let m6 = MessageView { timestamp: m.timestamp, ..m5 };
    let m7 = MessageView { status: m.status, ..m6 };
    lemma_line_tx_id(m0, m.tx_id);
    lemma_line_tx_type(m1, m.tx_type);
    lemma_line_from_user_id(m2, m.from_user_id);
    lemma_line_to_user_id(m3, m.to_user_id);
    lemma_line_amount(m4, m.amount);
    lemma_line_timestamp(m5, m.timestamp);
    lemma_line_status(m6, m.status);
    lemma_line_description(m7, m.description);
    assert(parse_block(b0) == Ok::<MessageView, Seq<char>>(m0));
    assert(b1.drop_last() =~= b0 && b1.last() == ls[0]);
    assert(parse_block(b1) == Ok::<MessageView, Seq<char>>(m1));
    assert(b2.drop_last() =~= b1 && b2.last() == ls[1]);
    assert(parse_block(b2) == Ok::<MessageView, Seq<char>>(m2));
    assert(b3.drop_last() =~= b2 && b3.last() == ls[2]);
    assert(parse_block(b3) == Ok::<MessageView, Seq<char>>(m3));
    assert(b4.drop_last() =~= b3 && b4.last() == ls[3]);
    assert(parse_block(b4) == Ok::<MessageView, Seq<char>>(m4));
    assert(b5.drop_last() =~= b4 && b5.last() == ls[4]);
    assert(parse_block(b5) == Ok::<MessageView, Seq<char>>(m5));
    assert(b6.drop_last() =~= b5 && b6.last() == ls[5]);
    assert(parse_block(b6) == Ok::<MessageView, Seq<char>>(m6));
    assert(b7.drop_last() =~= b6 && b7.last() == ls[6]);
    assert(parse_block(b7) == Ok::<MessageView, Seq<char>>(m7));
    assert(ls.drop_last() =~= b7 && ls.last() == ls[7]);
}

/// Lines that are not blank, fed to a reading, join its open block.
pub proof fn lemma_feed_block(r: Reading, lines: Seq<Seq<char>>)
    requires
        forall|i: int| 0 <= i < lines.len() ==> !is_blank(#[trigger] lines[i]),
    ensures
        feed_from(r, lines) == Ok::<Reading, Seq<char>>(
            Reading { done: r.done, block: r.block + lines },
        ),
    decreases lines.len(),
{
    if lines.len() == 0 {
        assert(r.block + lines =~= r.block);
    } else {
        lemma_feed_block(r, lines.drop_last());
        assert(!is_blank(lines[lines.len() - 1]));
        assert((r.block + lines.drop_last()).push(lines.last()) =~= r.block + lines);
    }
}

/// Feeding lines and then more lines is feeding them all.
pub proof fn lemma_feed_split(r: Reading, a: Seq<Seq<char>>, b: Seq<Seq<char>>)
    ensures
        feed_from(r, a + b) == match feed_from(r, a) {
            Ok(s) => feed_from(s, b),
            Err(line) => Err(line),
        },
    decreases b.len(),
{
    if b.len() == 0 {
        assert(a + b =~= a);
    } else {
        lemma_feed_split(r, a, b.drop_last());
        assert((a + b).drop_last() =~= a + b.drop_last());
        assert((a + b).last() == b.last());
    }
}

/// None of the eight lines of a record is blank.
pub proof fn lemma_record_lines_not_blank(m: MessageView)
    ensures
        forall|i: int| 0 <= i < 8 ==> !is_blank(#[trigger] record_lines(m)[i]),
{
    lemma_keys();
    let ls = record_lines(m);
    lemma_starts("TX_ID"@, decimal(m.tx_id as nat));
    lemma_starts("TX_TYPE"@, m.tx_type.name());
    lemma_starts("FROM_USER_ID"@, decimal(m.from_user_id as nat));
    lemma_starts("TO_USER_ID"@, decimal(m.to_user_id as nat));
    lemma_starts("AMOUNT"@, decimal(m.amount as nat));
    lemma_starts("TIMESTAMP"@, decimal(m.timestamp as nat));
    lemma_starts("STATUS"@, m.status.name());
    lemma_starts("DESCRIPTION"@, m.description);
    assert forall|i: int| 0 <= i < 8 implies !is_blank(#[trigger] ls[i]) by {
        assert(!is_space(ls[i][0]));
    }
}

/// The eight lines of a record and a blank line, fed to a reading without an
/// open block, add that record to its records.
pub proof fn lemma_feed_record(done: Seq<MessageView>, m: MessageView)
    requires
        no_sep(m.description),
    ensures
        feed_from(
            Reading { done, block: Seq::empty() },
            record_lines(m).push(Seq::empty()),
        ) == Ok::<Reading, Seq<char>>(Reading { done: done.push(m), block: Seq::empty() }),
{
    let r = Reading { done, block: Seq::empty() };
    let ls = record_lines(m);
    let all = ls.push(Seq::empty());
    lemma_record_lines_not_blank(m);
    lemma_feed_block(r, ls);
    lemma_record_block(m);
    assert(all.drop_last() =~= ls);
    assert(r.block + ls =~= ls);
    assert(is_blank(all.last()));
    assert(ls.len() == 8);
}

/// The line of a field holds no line feed and ends with no carriage return,
/// if its key and its value do not.
pub proof fn lemma_field_line(key: Seq<char>, v: Seq<char>)
    requires
        no_line_feed(key),
        no_line_feed(v),
        !ends_with_cr(v),
    ensures
        no_line_feed(field_line(key, v)),
        strip_cr(field_line(key, v)) == field_line(key, v),
{
    reveal_strlit(": ");
    let l = field_line(key, v);
    assert forall|i: int| 0 <= i < l.len() implies #[trigger] l[i] != '\n' by {
        if i < key.len() {
            assert(l[i] == key[i]);
        } else if i < key.len() + 2 {
        } else {
            assert(l[i] == v[i - key.len() - 2]);
        }
    }
    if v.len() > 0 {
        assert(l.last() == v.last());
    } else {
        assert(l.last() == ' ');
    }
}

/// The lines of records: the eight lines of each and a blank line, in order.
pub open spec fn records_lines(ms: Seq<MessageView>) -> Seq<Seq<char>>
    decreases ms.len(),
{
    if ms.len() == 0 {
        Seq::empty()
    } else {
        records_lines(ms.drop_last()) + record_lines(ms.last()).push(Seq::empty())
    }
}

/// Whether a description can be written in a line and read again: it holds no
/// line feed and no colon and space, and ends with no carriage return.
pub open spec fn keeps(d: Seq<char>) -> bool {
    plain(d) && !ends_with_cr(d)
}

/// Lines put one behind the other, each with a line feed behind it.
pub open spec fn joined(ls: Seq<Seq<char>>) -> Seq<char>
    decreases ls.len(),
{
    if ls.len() == 0 {
        Seq::empty()
    } else {
        joined(ls.drop_last()) + (ls.last() + "\n"@)
    }
}

/// Whether a line is one of the lines of the text it is written in: it holds
/// no line feed and ends with no carriage return.
pub open spec fn whole(l: Seq<char>) -> bool {
    no_line_feed(l) && strip_cr(l) == l
}

/// Whole lines, put behind a text that ends where a line ends, are added to
/// its lines.
pub proof fn lemma_lines_append_all(x: Seq<char>, ls: Seq<Seq<char>>)
    requires
        tail_line(x).len() == 0,
        forall|i: int| 0 <= i < ls.len() ==> whole(#[trigger] ls[i]),
    ensures
        ended_lines(x + joined(ls)) == ended_lines(x) + ls,
        tail_line(x + joined(ls)).len() == 0,
    decreases ls.len(),
{
    if ls.len() == 0 {
        assert(x + joined(ls) =~= x);
        assert(ended_lines(x) + ls =~= ended_lines(x));
    } else {
        let init = ls.drop_last();
        assert forall|i: int| 0 <= i < init.len() implies whole(#[trigger] init[i]) by {
            assert(init[i] == ls[i]);
        }
        lemma_lines_append_all(x, init);
        assert(whole(ls[ls.len() - 1]));
        lemma_lines_append(x + joined(init), ls.last());
        assert(x + joined(ls) =~= (x + joined(init)) + (ls.last() + "\n"@));
        assert((ended_lines(x) + init).push(ls.last()) =~= ended_lines(x) + ls);
    }
}

/// The text of a record is its eight lines and a blank line, each with a line
/// feed behind it.
pub proof fn lemma_record_text_joined(m: MessageView)
    ensures
        record_text(m) == joined(record_lines(m).push(Seq::empty())),
{
    reveal_strlit("\n");
    let ls = record_lines(m).push(Seq::empty());
    let nl = "\n"@;
    let j0 = joined(ls.take(0));
    let j1 = joined(ls.take(1));
    let j2 = joined(ls.take(2));
    let j3 = joined(ls.take(3));
    let j4 = joined(ls.take(4));
    let j5 = joined(ls.take(5));
    let j6 = joined(ls.take(6));
    let j7 = joined(ls.take(7));
    let j8 = joined(ls.take(8));
    assert(j0 =~= Seq::<char>::empty());
    assert(ls.take(1).drop_last() =~= ls.take(0));
    assert(j1 =~= ls[0] + nl);
    assert(ls.take(2).drop_last() =~= ls.take(1));
    assert(j2 =~= j1 + (ls[1] + nl));
    assert(ls.take(3).drop_last() =~= ls.take(2));
    assert(j3 =~= j2 + (ls[2] + nl));
    assert(ls.take(4).drop_last() =~= ls.take(3));
    assert(j4 =~= j3 + (ls[3] + nl));
    assert(ls.take(5).drop_last() =~= ls.take(4));
    assert(j5 =~= j4 + (ls[4] + nl));
    assert(ls.take(6).drop_last() =~= ls.take(5));
    assert(j6 =~= j5 + (ls[5] + nl));
    assert(ls.take(7).drop_last() =~= ls.take(6));
    assert(j7 =~= j6 + (ls[6] + nl));
    assert(ls.take(8).drop_last() =~= ls.take(7));
    assert(j8 =~= j7 + (ls[7] + nl));
    assert(ls.drop_last() =~= ls.take(8));
    assert(joined(ls) =~= j8 + (ls[8] + nl));
    assert(ls[8] + nl =~= nl);
    assert(joined(ls) =~= record_text(m));
}

/// The eight lines of a record are whole lines, if its description holds no
/// line feed and ends with no carriage return.
pub proof fn lemma_record_lines_whole(m: MessageView)
    requires
        no_line_feed(m.description),
        !ends_with_cr(m.description),
    ensures
        forall|i: int|
            0 <= i < 9 ==> whole(#[trigger] record_lines(m).push(Seq::<char>::empty())[i]),
{
    lemma_keys();
    lemma_names_plain(m.tx_type, m.status);
    lemma_decimal_digits(m.tx_id as nat);
    lemma_decimal_digits(m.from_user_id as nat);
    lemma_decimal_digits(m.to_user_id as nat);
    lemma_decimal_digits(m.amount as nat);
    lemma_decimal_digits(m.timestamp as nat);
    lemma_digits_plain(decimal(m.tx_id as nat));
    lemma_digits_plain(decimal(m.from_user_id as nat));
    lemma_digits_plain(decimal(m.to_user_id as nat));
    lemma_digits_plain(decimal(m.amount as nat));
    lemma_digits_plain(decimal(m.timestamp as nat));
    lemma_field_line("TX_ID"@, decimal(m.tx_id as nat));
    lemma_field_line("TX_TYPE"@, m.tx_type.name());
    lemma_field_line("FROM_USER_ID"@, decimal(m.from_user_id as nat));
    lemma_field_line("TO_USER_ID"@, decimal(m.to_user_id as nat));
    lemma_field_line("AMOUNT"@, decimal(m.amount as nat));
    lemma_field_line("TIMESTAMP"@, decimal(m.timestamp as nat));
    lemma_field_line("STATUS"@, m.status.name());
    lemma_field_line("DESCRIPTION"@, m.description);
}

/// The text of a record, put behind a text that ends where a line ends, adds
/// the eight lines of the record and a blank line to its lines.
pub proof fn lemma_record_text_lines(x: Seq<char>, m: MessageView)
    requires
        tail_line(x).len() == 0,
        no_line_feed(m.description),
        !ends_with_cr(m.description),
    ensures
        ended_lines(x + record_text(m)) == ended_lines(x) + record_lines(m).push(Seq::empty()),
        tail_line(x + record_text(m)).len() == 0,
{
    lemma_record_text_joined(m);
    lemma_record_lines_whole(m);
    lemma_lines_append_all(x, record_lines(m).push(Seq::empty()));
}

/// The lines of the text of records are the lines of the records, and the
/// text ends where a line ends.
pub proof fn lemma_records_text_lines(ms: Seq<MessageView>)
    requires
        forall|i: int| 0 <= i < ms.len() ==> keeps(#[trigger] ms[i].description),
    ensures
        text_lines(records_text(ms)) == records_lines(ms),
        ended_lines(records_text(ms)) == records_lines(ms),
        tail_line(records_text(ms)).len() == 0,
    decreases ms.len(),
{
    if ms.len() > 0 {
        let init = ms.drop_last();
        assert forall|i: int| 0 <= i < init.len() implies keeps(#[trigger] init[i].description) by {
            assert(init[i] == ms[i]);
        }
        lemma_records_text_lines(init);
        assert(keeps(ms[ms.len() - 1].description));
        lemma_record_text_lines(records_text(init), ms.last());
    }
}

/// The lines of records, fed from the start of a text, give those records
/// and leave no block open.
pub proof fn lemma_feed_records(ms: Seq<MessageView>)
    requires
        forall|i: int| 0 <= i < ms.len() ==> keeps(#[trigger] ms[i].description),
    ensures
        feed_lines(records_lines(ms)) == Ok::<Reading, Seq<char>>(
            Reading { done: ms, block: Seq::empty() },
        ),
    decreases ms.len(),
{
    if ms.len() == 0 {
        assert(ms =~= Seq::<MessageView>::empty());
    } else {
        let init = ms.drop_last();
        assert forall|i: int| 0 <= i < init.len() implies keeps(#[trigger] init[i].description) by {
            assert(init[i] == ms[i]);
        }
        lemma_feed_records(init);
        assert(keeps(ms[ms.len() - 1].description));
        lemma_feed_record(init, ms.last());
        lemma_feed_split(
            Reading { done: Seq::empty(), block: Seq::empty() },
            records_lines(init),
            record_lines(ms.last()).push(Seq::empty()),
        );
        assert(init.push(ms.last()) =~= ms);
    }
}

/// Reading the text of records gives the records back, if each description
/// can be written in a line and read again.
pub proof fn lemma_text_of_records(ms: Seq<MessageView>)
    requires
        forall|i: int| 0 <= i < ms.len() ==> keeps(#[trigger] ms[i].description),
    ensures
        parse_text(records_text(ms)) == Ok::<Seq<MessageView>, Seq<char>>(ms),
{
    lemma_records_text_lines(ms);
    lemma_feed_records(ms);
}

/// Whether none of the lines holds a line feed.
pub open spec fn lines_no_feed(ls: Seq<Seq<char>>) -> bool {
    forall|i: int| 0 <= i < ls.len() ==> no_line_feed(#[trigger] ls[i])
}

/// Whether the description of each record is plain.
pub open spec fn all_plain(ms: Seq<MessageView>) -> bool {
    forall|i: int| 0 <= i < ms.len() ==> plain(#[trigger] ms[i].description)
}

/// No line of a text holds a line feed.
pub proof fn lemma_lines_no_feed(t: Seq<char>)
    ensures
        lines_no_feed(ended_lines(t)),
        no_line_feed(tail_line(t)),
        lines_no_feed(text_lines(t)),
    decreases t.len(),
{
    if t.len() > 0 {
        lemma_lines_no_feed(t.drop_last());
        let prev = tail_line(t.drop_last());
        assert(no_line_feed(strip_cr(prev))) by {
            assert forall|i: int| 0 <= i < strip_cr(prev).len() implies #[trigger] strip_cr(
                prev,
            )[i] != '\n' by {
                assert(strip_cr(prev)[i] == prev[i]);
            }
        }
    }
}

/// The value of a line without a line feed is plain.
pub proof fn lemma_value_plain(line: Seq<char>)
    requires
        no_line_feed(line),
        line_value(line) is Some,
    ensures
        plain(line_value(line)->0),
{
    let k = first_sep(line);
    let rest = line.skip(k + 2);
    let end = first_sep(rest);
    let v = rest.take(end);
    lemma_first_sep_exists(line);
    lemma_first_sep_exists(rest);
    assert forall|i: int| !sep_at(v, i) by {
        if sep_at(v, i) {
            assert(sep_at(rest, i));
        }
    }
    assert forall|i: int| 0 <= i < v.len() implies #[trigger] v[i] != '\n' by {
        assert(v[i] == line[k + 2 + i]);
    }
}

/// A line leaves the description of a record plain.
pub proof fn lemma_apply_line_plain(m: MessageView, line: Seq<char>)
    requires
        plain(m.description),
        no_line_feed(line),
        apply_line(m, line) is Some,
    ensures
        plain(apply_line(m, line)->0.description),
{
    if line_value(line) is Some {
        lemma_value_plain(line);
    }
}

/// The description of the record that a block describes is plain.
pub proof fn lemma_block_plain(block: Seq<Seq<char>>)
    requires
        lines_no_feed(block),
        parse_block(block) is Ok,
    ensures
        plain(parse_block(block)->Ok_0.description),
    decreases block.len(),
{
    if block.len() > 0 {
        let init = block.drop_last();
        assert forall|i: int| 0 <= i < init.len() implies no_line_feed(#[trigger] init[i]) by {
            assert(init[i] == block[i]);
        }
        lemma_block_plain(init);
        assert(no_line_feed(block[block.len() - 1]));
        lemma_apply_line_plain(parse_block(init)->Ok_0, block.last());
    }
}

/// Whether a reading holds only plain descriptions and lines without a line
/// feed.
pub open spec fn sound(r: Reading) -> bool {
    all_plain(r.done) && lines_no_feed(r.block)
}

/// Lines without a line feed leave a reading sound.
pub proof fn lemma_feed_sound(r: Reading, lines: Seq<Seq<char>>)
    requires
        sound(r),
        lines_no_feed(lines),
        feed_from(r, lines) is Ok,
    ensures
        sound(feed_from(r, lines)->Ok_0),
    decreases lines.len(),
{
    if lines.len() > 0 {
        let init = lines.drop_last();
        assert forall|i: int| 0 <= i < init.len() implies no_line_feed(#[trigger] init[i]) by {
            assert(init[i] == lines[i]);
        }
        lemma_feed_sound(r, init);
        let s = feed_from(r, init)->Ok_0;
        assert(no_line_feed(lines[lines.len() - 1]));
        if is_blank(lines.last()) {
            lemma_close_sound(s);
        }
    }
}

/// The end of its open block leaves a reading sound.
pub proof fn lemma_close_sound(r: Reading)
    requires
        sound(r),
        close_block(r) is Ok,
    ensures
        sound(close_block(r)->Ok_0),
{
    if r.block.len() > 0 {
        lemma_block_plain(r.block);
    }
}

/// The descriptions of records that were read from a text are plain.
pub proof fn lemma_read_records_plain(t: Seq<char>)
    requires
        parse_text(t) is Ok,
    ensures
        all_plain(parse_text(t)->Ok_0),
{
    lemma_lines_no_feed(t);
    let start = Reading { done: Seq::empty(), block: Seq::empty() };
    lemma_feed_sound(start, text_lines(t));
    lemma_close_sound(feed_lines(text_lines(t))->Ok_0);
}

/// Records that were read from a text, written as text and read again, are
/// the same records, if none of their descriptions ends with a carriage
/// return.
pub proof fn lemma_text_round_trip(t: Seq<char>, ms: Seq<MessageView>)
    requires
        parse_text(t) == Ok::<Seq<MessageView>, Seq<char>>(ms),
        forall|i: int| 0 <= i < ms.len() ==> !ends_with_cr(#[trigger] ms[i].description),
    ensures
        parse_text(records_text(ms)) == Ok::<Seq<MessageView>, Seq<char>>(ms),
{
    lemma_read_records_plain(t);
    assert forall|i: int| 0 <= i < ms.len() implies keeps(#[trigger] ms[i].description) by {
        assert(plain(ms[i].description));
    }
    lemma_text_of_records(ms);
}

} // verus!

//! The framed binary form: each record is a magic marker, the length of its
//! body, and the body, all numbers big-endian.

use vstd::prelude::*;
use vstd::slice::{slice_subrange, slice_to_vec};
use vstd::std_specs::iter::IteratorSpec;
use vstd::std_specs::slice::into_iter_elts;
use vstd::utf8::{decode_utf8, encode_utf8, valid_utf8};

use crate::convertor::csv_format::CsvYPBankRecord;
use crate::convertor::txt_format::TxtYPBankRecord;
use crate::convertor::{
    outcome, records_view, BankRecord, Message, MessageView, Remap, StatusTransaction,
    TypeTransaction,
};
use crate::decimal::{decimal, push_decimal};
use crate::endian::{be_bytes, be_value, push_be, read_be};
use crate::error::{AppError, BinParseError, Result};
use crate::text::{push_str, string_of};

verus! {

/// The marker that begins every frame: the letters `YPBN`.
pub const MAGIC_NUMBER: [u8; 4] = [0x59, 0x50, 0x42, 0x4E];

/// The least length of a body: that of its fixed fields.
pub const MIN_SIZE_MESSAGE: usize = 46;

/// The greatest length of a body that is read.
pub const MAX_SIZE_MESSAGE: usize = 1024;

/// The greatest length of a body that a frame can declare.
pub const MAX_SIZE_FRAME: usize = 0xFFFF_FFFF;

/// The ways in which binary input can be wrong.
pub ghost enum BinFailure {
    /// The input ends within a frame.
    Truncated,
    /// A frame begins with these four bytes, which are not the marker.
    Magic(Seq<u8>),
    /// A body is shorter than its fixed fields; it holds the length.
    TooShort(nat),
    /// A frame declares a body longer than the greatest that is read; it holds
    /// the length.
    TooLong(nat),
    /// The byte of the transaction type is none of its codes.
    Type,
    /// The byte of the status is none of its codes.
    Status,
    /// The declared length of the description reaches past the body.
    Description,
    /// The description is not valid UTF-8.
    Utf8,
}

/// The record in a body, or what is wrong with the body. The fields stand in a
/// fixed order; the description is as long as the four bytes before it say, and
/// bytes of the body that follow it are ignored.
pub open spec fn parse_body(b: Seq<u8>) -> std::result::Result<MessageView, BinFailure> {
    if b.len() < MIN_SIZE_MESSAGE {
        Err(BinFailure::TooShort(b.len()))
    } else if TypeTransaction::of_code(b[8]) is None {
        Err(BinFailure::Type)
    } else if StatusTransaction::of_code(b[41]) is None {
        Err(BinFailure::Status)
    } else {
        let n = be_value(b.subrange(42, 46));
        let text = b.subrange(46, 46 + n as int);
        if n > 0 && 46 + n > b.len() {
            Err(BinFailure::Description)
        } else if n > 0 && !valid_utf8(text) {
            Err(BinFailure::Utf8)
        } else {
            Ok(
                MessageView {
                    tx_id: be_value(b.subrange(0, 8)) as u64,
                    tx_type: TypeTransaction::of_code(b[8])->0,
                    from_user_id: be_value(b.subrange(9, 17)) as u64,
                    to_user_id: be_value(b.subrange(17, 25)) as u64,
                    amount: be_value(b.subrange(25, 33)) as u64,
                    timestamp: be_value(b.subrange(33, 41)) as u64,
                    status: StatusTransaction::of_code(b[41])->0,
                    description: if n > 0 {
                        decode_utf8(text)
                    } else {
                        Seq::empty()
                    },
                },
            )
        }
    }
}

/// The text of the error for a body that is too short.
pub open spec fn too_short_text(n: nat) -> Seq<char> {
    "Message size is less than 46 bytes: "@ + decimal(n)
}

/// The text of the error for a body that is too long.
pub open spec fn too_long_text(n: nat) -> Seq<char> {
    "Message size is more than 1024 bytes: "@ + decimal(n)
}

/// Four bytes as a list of decimal numbers in square brackets.
pub open spec fn quad_text(m: Seq<u8>) -> Seq<char> {
    "["@ + decimal(m[0] as nat) + ", "@ + decimal(m[1] as nat) + ", "@ + decimal(m[2] as nat)
        + ", "@ + decimal(m[3] as nat) + "]"@
}

/// The text of the error for four bytes that are not the marker.
pub open spec fn magic_text(m: Seq<u8>) -> Seq<char> {
    "Invalid magic number: "@ + quad_text(m) + ", expected: "@ + quad_text(MAGIC_NUMBER@)
}

/// Whether `e` is the error that reports the failure `f`.
pub open spec fn reports(e: AppError, f: BinFailure) -> bool {
    match f {
        BinFailure::Truncated => e is IOError,
        BinFailure::Magic(m) => e matches AppError::BinParseError(
            BinParseError::MagicNumberError(t),
        ) && t@ == magic_text(m),
        BinFailure::TooShort(n) => e matches AppError::BinParseError(
            BinParseError::MessageSizeError(t),
        ) && t@ == too_short_text(n),
        BinFailure::TooLong(n) => e matches AppError::BinParseError(
            BinParseError::MessageSizeError(t),
        ) && t@ == too_long_text(n),
        BinFailure::Type => e matches AppError::BinParseError(BinParseError::TransactionError(t))
            && t@ == "Invalid transaction type"@,
        BinFailure::Status => e matches AppError::BinParseError(
            BinParseError::TransactionError(t),
        ) && t@ == "Invalid transaction status"@,
        BinFailure::Description => e matches AppError::BinParseError(
            BinParseError::DescriptionError(t),
        ) && t@ == "Description length is greater than buffer length"@,
        BinFailure::Utf8 => e is BinUtf8Error,
    }
}

/// The error for a body that is too short.
fn too_short(n: usize) -> (e: AppError)
    ensures
        reports(e, BinFailure::TooShort(n as nat)),
{
    let mut text: Vec<char> = Vec::new();
    push_str(&mut text, "Message size is less than 46 bytes: ");
    push_decimal(&mut text, n as u64);
    assert(text@ =~= too_short_text(n as nat));
    AppError::BinParseError(BinParseError::MessageSizeError(string_of(text.as_slice())))
}

impl Message {
    /// Reads the record in the body of a frame.
    pub fn parse_from_bin(buf: &[u8]) -> (res: Result<Message>)
        ensures
            match parse_body(buf@) {
                Ok(v) => res matches Ok(m) && m@ == v,
                Err(f) => res matches Err(e) && reports(e, f),
            },
    {
        if buf.len() < MIN_SIZE_MESSAGE {
            return Err(too_short(buf.len()));
        }
        let tx_id = read_be(buf, 0, 8);
        let tx_type = TypeTransaction::from_u8(buf[8])?;
        let from_user_id = read_be(buf, 9, 8);
        let to_user_id = read_be(buf, 17, 8);
        let amount = read_be(buf, 25, 8);
        let timestamp = read_be(buf, 33, 8);
        let status = StatusTransaction::from_u8(buf[41])?;
        let desc_len = read_be(buf, 42, 4);
        proof {
            crate::endian::lemma_be_value_bound(buf@.subrange(42, 46));
            crate::endian::lemma_span_values();
        }
        let description = if desc_len > 0 {
            if desc_len > (buf.len() - 46) as u64 {
                return Err(
                    AppError::BinParseError(
                        BinParseError::DescriptionError(
                            "Description length is greater than buffer length".to_owned(),
                        ),
                    ),
                );
            }
            let end: usize = 46 + desc_len as usize;
            let bytes = slice_to_vec(slice_subrange(buf, 46, end));
            match String::from_utf8(bytes) {
                Ok(text) => {
                    proof {
                        vstd::utf8::encode_utf8_decode_utf8(text@);
                    }
                    text
                },
                Err(e) => { return Err(AppError::BinUtf8Error(e)); },
            }
        } else {
            String::new()
        };
        Ok(
            Message {
                tx_id,
                tx_type,
                from_user_id,
                to_user_id,
                amount,
                timestamp,
                status,
                description,
            },
        )
    }
}

/// The record in the frame that begins the input, with the length of the
/// frame, or what is wrong with the frame.
pub open spec fn first_frame(s: Seq<u8>) -> std::result::Result<(MessageView, nat), BinFailure> {
    if s.len() < 4 {
        Err(BinFailure::Truncated)
    } else if s.subrange(0, 4) != MAGIC_NUMBER@ {
        Err(BinFailure::Magic(s.subrange(0, 4)))
    } else if s.len() < 8 {
        Err(BinFailure::Truncated)
    } else {
        let size = be_value(s.subrange(4, 8));
        if size < MIN_SIZE_MESSAGE {
            Err(BinFailure::TooShort(size))
        } else if size > MAX_SIZE_MESSAGE {
            Err(BinFailure::TooLong(size))
        } else if s.len() < 8 + size {
            Err(BinFailure::Truncated)
        } else {
            match parse_body(s.subrange(8, 8 + size as int)) {
                Ok(m) => Ok((m, 8 + size)),
                Err(f) => Err(f),
            }
        }
    }
}

/// The records of a run of frames, or what is wrong with the first frame that
/// is not well formed. Input that ends where a frame ends, and only such
/// input, is complete.
pub open spec fn parse_frames(s: Seq<u8>) -> std::result::Result<Seq<MessageView>, BinFailure>
    decreases s.len(),
{
    if s.len() == 0 {
        Ok(Seq::empty())
    } else {
        match first_frame(s) {
            Err(f) => Err(f),
            Ok((m, n)) => match parse_frames(s.skip(n as int)) {
                Err(f) => Err(f),
                Ok(rest) => Ok(seq![m] + rest),
            },
        }
    }
}

/// The records of `done` followed by what `rest` holds.
pub open spec fn after(
    done: Seq<MessageView>,
    rest: std::result::Result<Seq<MessageView>, BinFailure>,
) -> std::result::Result<Seq<MessageView>, BinFailure> {
    match rest {
        Ok(more) => Ok(done + more),
        Err(f) => Err(f),
    }
}

/// The length in bytes of the body of a record.
pub open spec fn body_len(m: MessageView) -> nat {
    46 + encode_utf8(m.description).len()
}

/// The body of a record: its fields in their fixed order, the description as
/// UTF-8 behind its length in bytes.
pub open spec fn body_bytes(m: MessageView) -> Seq<u8> {
    be_bytes(m.tx_id as nat, 8).push(m.tx_type.code()) + be_bytes(m.from_user_id as nat, 8)
        + be_bytes(m.to_user_id as nat, 8) + be_bytes(m.amount as nat, 8) + be_bytes(
        m.timestamp as nat,
        8,
    ).push(m.status.code()) + be_bytes(encode_utf8(m.description).len(), 4) + encode_utf8(
        m.description,
    )
}

/// The frame of a record: the marker, the length of the body, the body.
pub open spec fn frame_bytes(m: MessageView) -> Seq<u8> {
    MAGIC_NUMBER@ + be_bytes(body_len(m), 4) + body_bytes(m)
}

/// The frames of a list of records, in order.
pub open spec fn frames_bytes(ms: Seq<MessageView>) -> Seq<u8>
    decreases ms.len(),
{
    if ms.len() == 0 {
        Seq::empty()
    } else {
        frames_bytes(ms.drop_last()) + frame_bytes(ms.last())
    }
}

/// The body of a record is as long as `body_len` says.
pub proof fn lemma_body_len(m: MessageView)
    ensures
        body_bytes(m).len() == body_len(m),
{
    crate::endian::lemma_be_bytes_len(m.tx_id as nat, 8);
    crate::endian::lemma_be_bytes_len(m.from_user_id as nat, 8);
    crate::endian::lemma_be_bytes_len(m.to_user_id as nat, 8);
    crate::endian::lemma_be_bytes_len(m.amount as nat, 8);
    crate::endian::lemma_be_bytes_len(m.timestamp as nat, 8);
    crate::endian::lemma_be_bytes_len(encode_utf8(m.description).len(), 4);
}

/// Whether the length of every body can be declared in a frame.
pub open spec fn all_fit(ms: Seq<MessageView>) -> bool {
    forall|i: int| 0 <= i < ms.len() ==> body_len(#[trigger] ms[i]) <= MAX_SIZE_FRAME
}

impl Message {
    /// The body of this record for a binary frame. Fails where the body is
    /// longer than a frame can declare.
    pub fn to_bin(&self) -> (res: Result<Vec<u8>>)
        ensures
            body_len(self@) <= MAX_SIZE_FRAME ==> (res matches Ok(b) && b@ == body_bytes(self@)),
            body_len(self@) > MAX_SIZE_FRAME ==> (res matches Err(
                AppError::BinParseError(BinParseError::MessageSizeError(t)),
            ) && t@ == "Message size is more than 4294967295 bytes"@),
    {
        let text = self.description.as_str().as_bytes();
        if text.len() > MAX_SIZE_FRAME - 46 {
            return Err(
                AppError::BinParseError(
                    BinParseError::MessageSizeError(
                        "Message size is more than 4294967295 bytes".to_owned(),
                    ),
                ),
            );
        }
        let mut buf: Vec<u8> = Vec::new();
        push_be(&mut buf, self.tx_id, 8);
        buf.push(self.tx_type.to_u8());
        push_be(&mut buf, self.from_user_id, 8);
        push_be(&mut buf, self.to_user_id, 8);
        push_be(&mut buf, self.amount, 8);
        push_be(&mut buf, self.timestamp, 8);
        buf.push(self.status.to_u8());
        push_be(&mut buf, text.len() as u64, 4);
        buf.extend_from_slice(text);
        assert(buf@ =~= body_bytes(self@));
        Ok(buf)
    }
}

/// A text whose UTF-8 encoding is empty is empty.
pub proof fn lemma_empty_encoding(d: Seq<char>)
    requires
        encode_utf8(d).len() == 0,
    ensures
        d == Seq::<char>::empty(),
{
    vstd::utf8::encode_utf8_decode_utf8(d);
    assert(encode_utf8(d) =~= Seq::<u8>::empty());
    assert(decode_utf8(Seq::<u8>::empty()) =~= Seq::<char>::empty());
}

/// Reading the body of a record gives the record back, where the length of
/// its description can be declared.
pub proof fn lemma_body_round_trip(m: MessageView)
    requires
        body_len(m) <= MAX_SIZE_FRAME,
    ensures
        parse_body(body_bytes(m)) == Ok::<MessageView, BinFailure>(m),
{
    let b = body_bytes(m);
    let text = encode_utf8(m.description);
    let n = text.len();
    crate::endian::lemma_span_values();
    crate::endian::lemma_be_bytes_len(m.tx_id as nat, 8);
    crate::endian::lemma_be_bytes_len(m.from_user_id as nat, 8);
    crate::endian::lemma_be_bytes_len(m.to_user_id as nat, 8);
    crate::endian::lemma_be_bytes_len(m.amount as nat, 8);
    crate::endian::lemma_be_bytes_len(m.timestamp as nat, 8);
    crate::endian::lemma_be_bytes_len(n, 4);
    crate::endian::lemma_be_value_of_bytes(m.tx_id as nat, 8);
    crate::endian::lemma_be_value_of_bytes(m.from_user_id as nat, 8);
    crate::endian::lemma_be_value_of_bytes(m.to_user_id as nat, 8);
    crate::endian::lemma_be_value_of_bytes(m.amount as nat, 8);
    crate::endian::lemma_be_value_of_bytes(m.timestamp as nat, 8);
    crate::endian::lemma_be_value_of_bytes(n, 4);
    assert(b.len() == 46 + n);
    assert(b.subrange(0, 8) =~= be_bytes(m.tx_id as nat, 8));
    assert(b[8] == m.tx_type.code());
    assert(b.subrange(9, 17) =~= be_bytes(m.from_user_id as nat, 8));
    assert(b.subrange(17, 25) =~= be_bytes(m.to_user_id as nat, 8));
    assert(b.subrange(25, 33) =~= be_bytes(m.amount as nat, 8));
    assert(b.subrange(33, 41) =~= be_bytes(m.timestamp as nat, 8));
    assert(b[41] == m.status.code());
    assert(b.subrange(42, 46) =~= be_bytes(n, 4));
    assert(b.subrange(46, 46 + n as int) =~= text);
    vstd::utf8::encode_utf8_valid_utf8(m.description);
    vstd::utf8::encode_utf8_decode_utf8(m.description);
    if n == 0 {
        lemma_empty_encoding(m.description);
    }
    assert(parse_body(b)->Ok_0.description =~= m.description);
}

/// The body of a record that was read from a body is no longer than that
/// body.
pub proof fn lemma_parsed_body_len(b: Seq<u8>, m: MessageView)
    requires
        parse_body(b) == Ok::<MessageView, BinFailure>(m),
    ensures
        body_len(m) <= b.len(),
{
    let n = be_value(b.subrange(42, 46));
    if n > 0 {
        vstd::utf8::decode_utf8_encode_utf8(b.subrange(46, 46 + n as int));
    } else {
        assert(encode_utf8(Seq::<char>::empty()) =~= Seq::<u8>::empty());
    }
}

/// The frame of a record, with anything behind it, begins with that record.
pub proof fn lemma_first_frame(m: MessageView, tail: Seq<u8>)
    requires
        body_len(m) <= MAX_SIZE_MESSAGE,
    ensures
        first_frame(frame_bytes(m) + tail) == Ok::<(MessageView, nat), BinFailure>(
            (m, 8 + body_len(m)),
        ),
        (frame_bytes(m) + tail).skip(8 + body_len(m) as int) == tail,
{
    let s = frame_bytes(m) + tail;
    let size = body_len(m);
    crate::endian::lemma_span_values();
    crate::endian::lemma_be_bytes_len(size, 4);
    crate::endian::lemma_be_value_of_bytes(size, 4);
    lemma_body_len(m);
    lemma_body_round_trip(m);
    assert(s.subrange(0, 4) =~= MAGIC_NUMBER@);
    assert(s.subrange(4, 8) =~= be_bytes(size, 4));
    assert(s.subrange(8, 8 + size as int) =~= body_bytes(m));
    assert(s.skip(8 + size as int) =~= tail);
}

/// The frame of a record, with anything behind it, holds that record and
/// then what is behind it.
pub proof fn lemma_frame_then(m: MessageView, tail: Seq<u8>)
    requires
        body_len(m) <= MAX_SIZE_MESSAGE,
    ensures
        parse_frames(frame_bytes(m) + tail) == after(seq![m], parse_frames(tail)),
{
    lemma_first_frame(m, tail);
    lemma_body_len(m);
    assert((frame_bytes(m) + tail).len() > 0);
}

/// Records followed by a record and what is behind it are the records with
/// that record, followed by what is behind it.
pub proof fn lemma_after_push(
    init: Seq<MessageView>,
    last: MessageView,
    rest: std::result::Result<Seq<MessageView>, BinFailure>,
)
    ensures
        after(init, after(seq![last], rest)) == after(init.push(last), rest),
{
    if rest is Ok {
        assert(init + (seq![last] + rest->Ok_0) =~= init.push(last) + rest->Ok_0);
    }
}

/// The frames of records, with anything behind them, hold those records and
/// then what is behind them.
pub proof fn lemma_frames_then(ms: Seq<MessageView>, tail: Seq<u8>)
    requires
        forall|i: int| 0 <= i < ms.len() ==> body_len(#[trigger] ms[i]) <= MAX_SIZE_MESSAGE,
    ensures
        parse_frames(frames_bytes(ms) + tail) == after(ms, parse_frames(tail)),
    decreases ms.len(),
{
    if ms.len() == 0 {
        assert(frames_bytes(ms) + tail =~= tail);
        if parse_frames(tail) is Ok {
            assert(ms + parse_frames(tail)->Ok_0 =~= parse_frames(tail)->Ok_0);
        }
    } else {
        let init = ms.drop_last();
        let last = ms.last();
        let next = frame_bytes(last) + tail;
        assert(frames_bytes(ms) + tail =~= frames_bytes(init) + next);
        lemma_frames_then(init, next);
        lemma_frame_then(last, tail);
        lemma_after_push(init, last, parse_frames(tail));
        assert(init.push(last) =~= ms);
    }
}

/// Every record that was read from frames has a body that a frame can hold.
pub proof fn lemma_read_records_fit(s: Seq<u8>, ms: Seq<MessageView>)
    requires
        parse_frames(s) == Ok::<Seq<MessageView>, BinFailure>(ms),
    ensures
        forall|i: int| 0 <= i < ms.len() ==> body_len(#[trigger] ms[i]) <= MAX_SIZE_MESSAGE,
    decreases s.len(),
{
    if s.len() > 0 {
        let (m, n) = first_frame(s)->Ok_0;
        let rest = parse_frames(s.skip(n as int))->Ok_0;
        let size = be_value(s.subrange(4, 8));
        lemma_parsed_body_len(s.subrange(8, 8 + size as int), m);
        lemma_read_records_fit(s.skip(n as int), rest);
        assert forall|i: int| 0 <= i < ms.len() implies body_len(#[trigger] ms[i])
            <= MAX_SIZE_MESSAGE by {
            if i > 0 {
                assert(ms[i] == rest[i - 1]);
            }
        }
    }
}

/// Records that were read from frames can be written, and reading what is
/// written gives the same records again.
pub proof fn lemma_frames_round_trip(s: Seq<u8>, ms: Seq<MessageView>)
    requires
        parse_frames(s) == Ok::<Seq<MessageView>, BinFailure>(ms),
    ensures
        all_fit(ms),
        parse_frames(frames_bytes(ms)) == Ok::<Seq<MessageView>, BinFailure>(ms),
{
    lemma_read_records_fit(s, ms);
    lemma_frames_then(ms, Seq::empty());
    assert(frames_bytes(ms) + Seq::<u8>::empty() =~= frames_bytes(ms));
    assert(ms + Seq::<MessageView>::empty() =~= ms);
}

/// A frame that is cut short is not read: input that ends within a frame has
/// no first frame.
pub proof fn lemma_cut_frame(m: MessageView, k: int)
    requires
        body_len(m) <= MAX_SIZE_MESSAGE,
        0 < k < frame_bytes(m).len(),
    ensures
        first_frame(frame_bytes(m).take(k)) == Err::<(MessageView, nat), BinFailure>(
            BinFailure::Truncated,
        ),
{
    let f = frame_bytes(m);
    let s = f.take(k);
    let size = body_len(m);
    crate::endian::lemma_span_values();
    crate::endian::lemma_be_bytes_len(size, 4);
    crate::endian::lemma_be_value_of_bytes(size, 4);
    lemma_body_len(m);
    if k >= 4 {
        assert(s.subrange(0, 4) =~= MAGIC_NUMBER@);
    }
    if k >= 8 {
        assert(s.subrange(4, 8) =~= be_bytes(size, 4));
    }
}

/// Frames that are followed by the beginning of one more frame, but not all
/// of it, are not read: the input ends within a frame.
pub proof fn lemma_truncated(ms: Seq<MessageView>, m: MessageView, k: int)
    requires
        forall|i: int| 0 <= i < ms.len() ==> body_len(#[trigger] ms[i]) <= MAX_SIZE_MESSAGE,
        body_len(m) <= MAX_SIZE_MESSAGE,
        0 < k < frame_bytes(m).len(),
    ensures
        parse_frames(frames_bytes(ms) + frame_bytes(m).take(k)) == Err::<
            Seq<MessageView>,
            BinFailure,
        >(BinFailure::Truncated),
{
    let tail = frame_bytes(m).take(k);
    lemma_frames_then(ms, tail);
    lemma_cut_frame(m, k);
    assert(tail.len() > 0);
}

/// Whether a body holds nothing behind its description.
pub open spec fn tight_body(b: Seq<u8>) -> bool {
    b.len() == 46 + be_value(b.subrange(42, 46))
}

/// Whether the body of every frame of a run of frames holds nothing behind
/// its description.
pub open spec fn tight(s: Seq<u8>) -> bool
    decreases s.len(),
{
    if s.len() == 0 {
        true
    } else {
        match first_frame(s) {
            Err(_) => false,
            Ok((_, n)) => tight_body(s.subrange(8, n as int)) && tight(s.skip(n as int)),
        }
    }
}

/// The code of the kind that a code stands for is that code, and so for the
/// outcomes.
pub proof fn lemma_codes(kind: u8, status: u8)
    ensures
        TypeTransaction::of_code(kind) matches Some(t) ==> t.code() == kind,
        StatusTransaction::of_code(status) matches Some(t) ==> t.code() == status,
{
}

/// The body of a record that was read from a tight body is that body.
pub proof fn lemma_tight_body(b: Seq<u8>, m: MessageView)
    requires
        parse_body(b) == Ok::<MessageView, BinFailure>(m),
        tight_body(b),
    ensures
        body_bytes(m) == b,
{
    let n = be_value(b.subrange(42, 46));
    let text = b.subrange(46, 46 + n as int);
    crate::endian::lemma_be_bytes_of_value(b.subrange(0, 8));
    crate::endian::lemma_be_bytes_of_value(b.subrange(9, 17));
    crate::endian::lemma_be_bytes_of_value(b.subrange(17, 25));
    crate::endian::lemma_be_bytes_of_value(b.subrange(25, 33));
    crate::endian::lemma_be_bytes_of_value(b.subrange(33, 41));
    crate::endian::lemma_be_bytes_of_value(b.subrange(42, 46));
    crate::endian::lemma_be_value_bound(b.subrange(0, 8));
    crate::endian::lemma_be_value_bound(b.subrange(9, 17));
    crate::endian::lemma_be_value_bound(b.subrange(17, 25));
    crate::endian::lemma_be_value_bound(b.subrange(25, 33));
    crate::endian::lemma_be_value_bound(b.subrange(33, 41));
    crate::endian::lemma_span_values();
    lemma_codes(b[8], b[41]);
    if n > 0 {
        vstd::utf8::decode_utf8_encode_utf8(text);
    } else {
        assert(encode_utf8(Seq::<char>::empty()) =~= Seq::<u8>::empty());
        assert(text =~= Seq::<u8>::empty());
    }
    assert(encode_utf8(m.description) == text);
    assert(b =~= b.subrange(0, 8).push(b[8]) + b.subrange(9, 17) + b.subrange(17, 25)
        + b.subrange(25, 33) + b.subrange(33, 41).push(b[41]) + b.subrange(42, 46) + text);
}

/// The frames of a record and of further records are the frame of the record
/// and then the frames of the others.
pub proof fn lemma_frames_bytes_front(m: MessageView, rest: Seq<MessageView>)
    ensures
        frames_bytes(seq![m] + rest) == frame_bytes(m) + frames_bytes(rest),
    decreases rest.len(),
{
    let all = seq![m] + rest;
    if rest.len() == 0 {
        assert(all.drop_last() =~= Seq::<MessageView>::empty());
        assert(all.last() == m);
        assert(frames_bytes(all.drop_last()) =~= Seq::<u8>::empty());
        assert(frames_bytes(all) =~= frame_bytes(m));
        assert(frame_bytes(m) + frames_bytes(rest) =~= frame_bytes(m));
    } else {
        lemma_frames_bytes_front(m, rest.drop_last());
        assert(all.drop_last() =~= seq![m] + rest.drop_last());
        assert(all.last() == rest.last());
        assert(frames_bytes(all) =~= frame_bytes(m) + frames_bytes(rest));
    }
}

/// The frame of the record that a tight frame holds is that frame.
pub proof fn lemma_tight_first(s: Seq<u8>, m: MessageView, n: nat)
    requires
        first_frame(s) == Ok::<(MessageView, nat), BinFailure>((m, n)),
        tight_body(s.subrange(8, n as int)),
    ensures
        8 + MIN_SIZE_MESSAGE <= n <= s.len(),
        frame_bytes(m) == s.take(n as int),
{
    let body = s.subrange(8, n as int);
    lemma_tight_body(body, m);
    lemma_body_len(m);
    crate::endian::lemma_be_bytes_of_value(s.subrange(4, 8));
    assert(s.take(n as int) =~= s.subrange(0, 4) + s.subrange(4, 8) + body);
}

/// Whether `s` is a run of tight frames that holds the records `ms`.
#[verifier::opaque]
pub open spec fn tight_frames_of(s: Seq<u8>, ms: Seq<MessageView>) -> bool {
    parse_frames(s) == Ok::<Seq<MessageView>, BinFailure>(ms) && tight(s)
}

/// What tight frames that hold records begin with: the frame of the first
/// record, and then tight frames that hold the others. It gives the first
/// record, the length of its frame and the other records.
pub proof fn lemma_tight_unfold(s: Seq<u8>, ms: Seq<MessageView>) -> (r: (
    MessageView,
    nat,
    Seq<MessageView>,
))
    requires
        tight_frames_of(s, ms),
        s.len() > 0,
    ensures
        0 < r.1 <= s.len(),
        frame_bytes(r.0) == s.take(r.1 as int),
        tight_frames_of(s.skip(r.1 as int), r.2),
        ms == seq![r.0] + r.2,
{
    reveal(tight_frames_of);
    let m = first_frame(s)->Ok_0.0;
    let n = first_frame(s)->Ok_0.1;
    lemma_tight_first(s, m, n);
    (m, n, parse_frames(s.skip(n as int))->Ok_0)
}

/// Tight frames that hold records are the frames of those records.
pub proof fn lemma_tight_frames_of(s: Seq<u8>, ms: Seq<MessageView>)
    requires
        tight_frames_of(s, ms),
    ensures
        frames_bytes(ms) == s,
    decreases s.len(),
{
    if s.len() == 0 {
        assert(ms =~= Seq::<MessageView>::empty()) by {
            reveal(tight_frames_of);
        }
        assert(frames_bytes(ms) =~= s);
    } else {
        let (m, n, rest) = lemma_tight_unfold(s, ms);
        let tail = s.skip(n as int);
        lemma_tight_frames_of(tail, rest);
        lemma_frames_bytes_front(m, rest);
        assert(s =~= s.take(n as int) + tail);
    }
}

/// Writing the records that were read from tight frames gives those frames
/// again, byte for byte.
pub proof fn lemma_tight_frames(s: Seq<u8>, ms: Seq<MessageView>)
    requires
        parse_frames(s) == Ok::<Seq<MessageView>, BinFailure>(ms),
        tight(s),
    ensures
        frames_bytes(ms) == s,
{
    reveal(tight_frames_of);
    lemma_tight_frames_of(s, ms);
}

/// The error for input that ends within a frame:
/// `std::io::Error::from(std::io::ErrorKind::UnexpectedEof)`.
#[verifier::external_body]
fn unexpected_eof() -> (e: std::io::Error) {
    std::io::Error::from(std::io::ErrorKind::UnexpectedEof)
}

/// Appends four bytes as a list of decimal numbers in square brackets.
fn push_quad(out: &mut Vec<char>, m: &[u8])
    requires
        m.len() == 4,
    ensures
        final(out)@ == old(out)@ + quad_text(m@),
{
    push_str(out, "[");
    push_decimal(out, m[0] as u64);
    push_str(out, ", ");
    push_decimal(out, m[1] as u64);
    push_str(out, ", ");
    push_decimal(out, m[2] as u64);
    push_str(out, ", ");
    push_decimal(out, m[3] as u64);
    push_str(out, "]");
    assert(out@ =~= old(out)@ + quad_text(m@));
}

/// The error for four bytes that are not the marker.
fn bad_magic(m: &[u8]) -> (e: AppError)
    requires
        m.len() == 4,
    ensures
        reports(e, BinFailure::Magic(m@)),
{
    let mut text: Vec<char> = Vec::new();
    push_str(&mut text, "Invalid magic number: ");
    push_quad(&mut text, m);
    push_str(&mut text, ", expected: ");
    push_quad(&mut text, MAGIC_NUMBER.as_slice());
    assert(text@ =~= magic_text(m@));
    AppError::BinParseError(BinParseError::MagicNumberError(string_of(text.as_slice())))
}

/// The error for a frame that declares too long a body.
fn too_long(n: usize) -> (e: AppError)
    ensures
        reports(e, BinFailure::TooLong(n as nat)),
{
    let mut text: Vec<char> = Vec::new();
    push_str(&mut text, "Message size is more than 1024 bytes: ");
    push_decimal(&mut text, n as u64);
    assert(text@ =~= too_long_text(n as nat));
    AppError::BinParseError(BinParseError::MessageSizeError(string_of(text.as_slice())))
}

/// Reads the frame that begins at `at`, and gives its record and where the
/// next frame begins.
fn read_frame(r: &[u8], at: usize) -> (res: Result<(Message, usize)>)
    requires
        at < r.len(),
    ensures
        match first_frame(r@.skip(at as int)) {
            Ok((v, n)) => res matches Ok((m, next)) && m@ == v && next == at + n && next
                <= r.len(),
            Err(f) => res matches Err(e) && reports(e, f),
        },
{
    let ghost s = r@.skip(at as int);
    let left: usize = r.len() - at;
    if left < 4 {
        return Err(AppError::IOError(unexpected_eof()));
    }
    let magic = slice_subrange(r, at, at + 4);
    assert(magic@ =~= s.subrange(0, 4));
    if magic[0] != MAGIC_NUMBER[0] || magic[1] != MAGIC_NUMBER[1] || magic[2] != MAGIC_NUMBER[2]
        || magic[3] != MAGIC_NUMBER[3] {
        return Err(bad_magic(magic));
    }
    assert(magic@ =~= MAGIC_NUMBER@);
    if left < 8 {
        return Err(AppError::IOError(unexpected_eof()));
    }
    let size64 = read_be(r, at + 4, 4);
    proof {
        assert(r@.subrange(at + 4, at + 8) =~= s.subrange(4, 8));
        crate::endian::lemma_be_value_bound(s.subrange(4, 8));
        crate::endian::lemma_span_values();
    }
    let size: usize = size64 as usize;
    if size < MIN_SIZE_MESSAGE {
        return Err(too_short(size));
    }
    if size > MAX_SIZE_MESSAGE {
        return Err(too_long(size));
    }
    if left - 8 < size {
        return Err(AppError::IOError(unexpected_eof()));
    }
    let body = slice_subrange(r, at + 8, at + 8 + size);
    assert(body@ =~= s.subrange(8, 8 + size));
    let m = Message::parse_from_bin(body)?;
    Ok((m, at + 8 + size))
}

/// Whether `out` is the outcome of reading the bytes as frames: the records
/// of the frames, or the error that reports what is wrong with the first
/// frame that is not well formed.
pub open spec fn frames_read(bytes: Seq<u8>, out: Result<Seq<MessageView>>) -> bool {
    match parse_frames(bytes) {
        Ok(records) => out matches Ok(c) && c == records,
        Err(f) => out matches Err(e) && reports(e, f),
    }
}

/// The records of a binary file, in the order of the file.
#[derive(Debug, PartialEq, Clone)]
pub struct BinYPBankRecord {
    data: Vec<Message>,
}

impl View for BinYPBankRecord {
    type V = Seq<MessageView>;

    /// The records, in order.
    closed spec fn view(&self) -> Seq<MessageView> {
        records_view(self.data@)
    }
}

impl BinYPBankRecord {
    /// Reads the records of a run of frames. The input must end where a frame
    /// ends.
    pub fn from_read(r: &[u8]) -> (res: Result<Self>)
        ensures
            frames_read(r@, outcome(res)),
    {
        let mut data: Vec<Message> = Vec::new();
        let mut at: usize = 0;
        assert(r@.skip(0) =~= r@);
        assert(records_view(data@) + Seq::<MessageView>::empty() =~= Seq::<MessageView>::empty());
        while at < r.len()
            invariant
                at <= r.len(),
                parse_frames(r@) == after(records_view(data@), parse_frames(r@.skip(at as int))),
            decreases r.len() - at,
        {
            let ghost s = r@.skip(at as int);
            let ghost done = records_view(data@);
            match read_frame(r, at) {
                Err(e) => { return Err(e); },
                Ok((m, next)) => {
                    proof {
                        assert(s.skip(next - at) =~= r@.skip(next as int));
                        let rest = parse_frames(r@.skip(next as int));
                        if rest is Ok {
                            assert(done.push(m@) + rest->Ok_0 =~= done + (seq![m@] + rest->Ok_0));
                        }
                    }
                    data.push(m);
                    assert(records_view(data@) =~= done.push(m@));
                    at = next;
                },
            }
        }
        assert(r@.skip(at as int).len() == 0);
        assert(records_view(data@) + Seq::<MessageView>::empty() =~= records_view(data@));
        Ok(BinYPBankRecord { data })
    }

    /// A collection without records.
    pub fn new() -> (c: Self)
        ensures
            c@ == Seq::<MessageView>::empty(),
    {
        let c = BinYPBankRecord { data: Vec::new() };
        assert(c@ =~= Seq::<MessageView>::empty());
        c
    }
}

impl From<CsvYPBankRecord> for BinYPBankRecord {
    /// The records of a CSV file as those of a binary file: each description
    /// between two double quotes.
    fn from(value: CsvYPBankRecord) -> (c: Self)
        ensures
            c@ == Remap::Quote.records(value@),
    {
        BinYPBankRecord { data: Remap::Quote.rebuild(value.iter()) }
    }
}

/// What `from` gives is stated on `from` itself, over the records: as a value
/// of the type it is not fixed, so no `from_spec` is promised.
impl vstd::std_specs::convert::FromSpecImpl<CsvYPBankRecord> for BinYPBankRecord {
    open spec fn obeys_from_spec() -> bool {
        false
    }

    open spec fn from_spec(v: CsvYPBankRecord) -> Self {
        arbitrary()
    }
}

impl From<TxtYPBankRecord> for BinYPBankRecord {
    /// The records of a text file as those of a binary file: each as it is.
    fn from(value: TxtYPBankRecord) -> (c: Self)
        ensures
            c@ == Remap::Keep.records(value@),
    {
        BinYPBankRecord { data: Remap::Keep.rebuild(value.iter()) }
    }
}

/// What `from` gives is stated on `from` itself, over the records: as a value
/// of the type it is not fixed, so no `from_spec` is promised.
impl vstd::std_specs::convert::FromSpecImpl<TxtYPBankRecord> for BinYPBankRecord {
    open spec fn obeys_from_spec() -> bool {
        false
    }

    open spec fn from_spec(v: TxtYPBankRecord) -> Self {
        arbitrary()
    }
}

/// A collection that was read from frames can be written, and what is written
/// is read as the same records. Where the frames were tight, what is written
/// is those frames, byte for byte.
pub proof fn lemma_bin_round_trip(bytes: Seq<u8>, c: BinYPBankRecord)
    requires
        frames_read(bytes, Ok(c@)),
    ensures
        c.encoding() matches Some(out) && frames_read(out, Ok(c@)) && (tight(bytes) ==> out
            == bytes),
{
    lemma_frames_round_trip(bytes, c@);
    if tight(bytes) {
        lemma_tight_frames(bytes, c@);
    }
}

impl BankRecord for BinYPBankRecord {
    /// The frames of the records, in order; none where the body of a record is
    /// longer than a frame can declare.
    open spec fn encoding(&self) -> Option<Seq<u8>> {
        if all_fit(self@) {
            Some(frames_bytes(self@))
        } else {
            None
        }
    }

    fn write_to(&self, writer: &mut Vec<u8>) -> (res: Result<()>)
        ensures
            !all_fit(self@) ==> res matches Err(
                AppError::BinParseError(BinParseError::MessageSizeError(_)),
            ),
    {
        let mut out: Vec<u8> = Vec::new();
        let mut i: usize = 0;
        assert(self@.take(0) =~= Seq::<MessageView>::empty());
        while i < self.data.len()
            invariant
                i <= self.data.len(),
                self@.len() == self.data.len(),
                all_fit(self@.take(i as int)),
                out@ == frames_bytes(self@.take(i as int)),
            decreases self.data.len() - i,
        {
            proof {
                assert(self@.take(i + 1).drop_last() =~= self@.take(i as int));
                assert(self@.take(i + 1).last() == self.data@[i as int]@);
                assert(self@[i as int] == self.data@[i as int]@);
            }
            let body = self.data[i].to_bin()?;
            proof {
                lemma_body_len(self@[i as int]);
            }
            out.extend_from_slice(MAGIC_NUMBER.as_slice());
            push_be(&mut out, body.len() as u64, 4);
            out.extend_from_slice(body.as_slice());
            assert(out@ =~= frames_bytes(self@.take(i as int)) + frame_bytes(self@[i as int]));
            i += 1;
        }
        assert(self@.take(i as int) =~= self@);
        writer.extend_from_slice(out.as_slice());
        Ok(())
    }

    fn push(&mut self, value: Message) {
        self.data.push(value);
        assert(self@ =~= old(self)@.push(value@));
    }

    fn len(&self) -> (n: usize) {
        self.data.len()
    }

    fn is_empty(&self) -> (b: bool) {
        self.data.is_empty()
    }

    fn pop(&mut self) -> (last: Option<Message>) {
        let last = self.data.pop();
        assert(last is Some ==> self@ =~= old(self)@.drop_last());
        assert(last is None ==> self@ =~= old(self)@);
        last
    }

    fn iter(&self) -> (it: std::slice::Iter<'_, Message>) {
        broadcast use vstd::std_specs::slice::axiom_spec_slice_iter;

        let it = self.data.iter();
        assert(into_iter_elts(it) =~= self.data@);
        it
    }
}

} // verus!

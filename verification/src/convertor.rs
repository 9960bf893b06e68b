//! The record model shared by the three encodings.

use vstd::prelude::*;

use vstd::std_specs::iter::IteratorSpec;
use vstd::std_specs::slice::into_iter_elts;

use crate::error::{AppError, BinParseError, Result};
use crate::text::{chars_of, same_text};

pub mod bin_format;
pub mod csv_format;
pub mod txt_format;
pub mod txt_laws;

verus! {

/// What the three collections of records have in common. A collection is an
/// ordered list of records; its view is that list.
pub trait BankRecord: View<V = Seq<MessageView>> + Sized {
    /// The bytes that `write_to` appends for this collection, or none where
    /// the collection cannot be written.
    spec fn encoding(&self) -> Option<Seq<u8>>;

    /// Appends the encoding of every record, in order, to `writer`. Nothing
    /// is appended where the collection cannot be written.
    fn write_to(&self, writer: &mut Vec<u8>) -> (res: Result<()>)
        ensures
            match self.encoding() {
                Some(bytes) => res is Ok && final(writer)@ == old(writer)@ + bytes,
                None => res is Err && final(writer)@ == old(writer)@,
            },
    ;

    /// Appends a record.
    fn push(&mut self, value: Message)
        ensures
            final(self)@ == old(self)@.push(value@),
    ;

    /// The number of records.
    fn len(&self) -> (n: usize)
        ensures
            n == self@.len(),
    ;

    /// Whether there is no record.
    fn is_empty(&self) -> (b: bool)
        ensures
            b == (self@.len() == 0),
    ;

    /// Removes the last record and returns it, if there is one.
    fn pop(&mut self) -> (last: Option<Message>)
        ensures
            match last {
                Some(m) => old(self)@.len() > 0 && m@ == old(self)@.last() && final(self)@
                    == old(self)@.drop_last(),
                None => old(self)@.len() == 0 && final(self)@ == old(self)@,
            },
    ;

    /// An iterator over the records, in order.
    fn iter(&self) -> (it: std::slice::Iter<'_, Message>)
        ensures
            records_view(into_iter_elts(it)) == self@,
            it.decrease() is Some,
            it.initial_value_relation(&it),
    ;
}

/// The kind of a transaction.
#[derive(Debug, Clone, Copy, PartialEq, Eq, Structural)]
pub enum TypeTransaction {
    /// Money comes into an account from outside.
    Deposit,
    /// Money moves from one account to another.
    Transfer,
    /// Money leaves an account.
    Withdrawal,
}

impl TypeTransaction {
    /// The code of this kind in a binary frame.
    pub open spec fn code(self) -> u8 {
        match self {
            TypeTransaction::Deposit => 0,
            TypeTransaction::Transfer => 1,
            TypeTransaction::Withdrawal => 2,
        }
    }

    /// The kind that a code of a binary frame stands for.
    pub open spec fn of_code(value: u8) -> Option<TypeTransaction> {
        if value == 0 {
            Some(TypeTransaction::Deposit)
        } else if value == 1 {
            Some(TypeTransaction::Transfer)
        } else if value == 2 {
            Some(TypeTransaction::Withdrawal)
        } else {
            None
        }
    }

    /// Reads the code of a kind; any byte but the three codes is an error.
    pub fn from_u8(value: u8) -> (res: Result<Self>)
        ensures
            match Self::of_code(value) {
                Some(t) => res == Ok::<Self, AppError>(t),
                None => res matches Err(AppError::BinParseError(BinParseError::TransactionError(m)))
                    && m@ == "Invalid transaction type"@,
            },
    {
        match value {
            0 => Ok(TypeTransaction::Deposit),
            1 => Ok(TypeTransaction::Transfer),
            2 => Ok(TypeTransaction::Withdrawal),
            _ => Err(AppError::BinParseError(BinParseError::TransactionError(
                "Invalid transaction type".to_owned(),
            ))),
        }
    }

    /// The code of this kind in a binary frame.
    pub fn to_u8(self) -> (code: u8)
        ensures
            code == self.code(),
    {
        match self {
            TypeTransaction::Deposit => 0,
            TypeTransaction::Transfer => 1,
            TypeTransaction::Withdrawal => 2,
        }
    }

    /// The name of this kind in the text and CSV forms.
    pub open spec fn name(self) -> Seq<char> {
        match self {
            TypeTransaction::Deposit => "DEPOSIT"@,
            TypeTransaction::Transfer => "TRANSFER"@,
            TypeTransaction::Withdrawal => "WITHDRAWAL"@,
        }
    }

    /// The kind that a name stands for.
    pub open spec fn of_name(name: Seq<char>) -> Option<TypeTransaction> {
        if name == "DEPOSIT"@ {
            Some(TypeTransaction::Deposit)
        } else if name == "TRANSFER"@ {
            Some(TypeTransaction::Transfer)
        } else if name == "WITHDRAWAL"@ {
            Some(TypeTransaction::Withdrawal)
        } else {
            None
        }
    }

    /// The name of this kind, in upper case.
    pub fn to_string(&self) -> (name: String)
        ensures
            name@ == self.name(),
    {
        match self {
            TypeTransaction::Deposit => "DEPOSIT".to_owned(),
            TypeTransaction::Transfer => "TRANSFER".to_owned(),
            TypeTransaction::Withdrawal => "WITHDRAWAL".to_owned(),
        }
    }

    /// Reads the name of a kind.
    pub fn from_name(name: &[char]) -> (kind: Option<Self>)
        ensures
            kind == Self::of_name(name@),
    {
        if same_text(name, chars_of("DEPOSIT").as_slice()) {
            Some(TypeTransaction::Deposit)
        } else if same_text(name, chars_of("TRANSFER").as_slice()) {
            Some(TypeTransaction::Transfer)
        } else if same_text(name, chars_of("WITHDRAWAL").as_slice()) {
            Some(TypeTransaction::Withdrawal)
        } else {
            None
        }
    }
}

/// The name of a kind stands for that kind, and its code too.
pub proof fn lemma_type_names(t: TypeTransaction)
    ensures
        TypeTransaction::of_name(t.name()) == Some(t),
        TypeTransaction::of_code(t.code()) == Some(t),
{
    reveal_strlit("DEPOSIT");
    reveal_strlit("TRANSFER");
    reveal_strlit("WITHDRAWAL");
    assert("DEPOSIT"@.len() == 7);
    assert("TRANSFER"@.len() == 8);
    assert("WITHDRAWAL"@.len() == 10);
}

/// The outcome of a transaction.
#[derive(Debug, Clone, Copy, PartialEq, Eq, Structural)]
pub enum StatusTransaction {
    /// The transaction went through.
    Success,
    /// The transaction was refused.
    Failure,
    /// The transaction has not been decided yet.
    Pending,
}

impl StatusTransaction {
    /// The code of this outcome in a binary frame.
    pub open spec fn code(self) -> u8 {
        match self {
            StatusTransaction::Success => 0,
            StatusTransaction::Failure => 1,
            StatusTransaction::Pending => 2,
        }
    }

    /// The outcome that a code of a binary frame stands for.
    pub open spec fn of_code(value: u8) -> Option<StatusTransaction> {
        if value == 0 {
            Some(StatusTransaction::Success)
        } else if value == 1 {
            Some(StatusTransaction::Failure)
        } else if value == 2 {
            Some(StatusTransaction::Pending)
        } else {
            None
        }
    }

    /// Reads the code of an outcome; any byte but the three codes is an
    /// error.
    pub fn from_u8(value: u8) -> (res: Result<Self>)
        ensures
            match Self::of_code(value) {
                Some(t) => res == Ok::<Self, AppError>(t),
                None => res matches Err(AppError::BinParseError(BinParseError::TransactionError(m)))
                    && m@ == "Invalid transaction status"@,
            },
    {
        match value {
            0 => Ok(StatusTransaction::Success),
            1 => Ok(StatusTransaction::Failure),
            2 => Ok(StatusTransaction::Pending),
            _ => Err(AppError::BinParseError(BinParseError::TransactionError(
                "Invalid transaction status".to_owned(),
            ))),
        }
    }

    /// The code of this outcome in a binary frame.
    pub fn to_u8(self) -> (code: u8)
        ensures
            code == self.code(),
    {
        match self {
            StatusTransaction::Success => 0,
            StatusTransaction::Failure => 1,
            StatusTransaction::Pending => 2,
        }
    }

    /// The name of this outcome in the text and CSV forms.
    pub open spec fn name(self) -> Seq<char> {
        match self {
            StatusTransaction::Success => "SUCCESS"@,
            StatusTransaction::Failure => "FAILURE"@,
            StatusTransaction::Pending => "PENDING"@,
        }
    }

    /// The outcome that a name stands for.
    pub open spec fn of_name(name: Seq<char>) -> Option<StatusTransaction> {
        if name == "SUCCESS"@ {
            Some(StatusTransaction::Success)
        } else if name == "FAILURE"@ {
            Some(StatusTransaction::Failure)
        } else if name == "PENDING"@ {
            Some(StatusTransaction::Pending)
        } else {
            None
        }
    }

    /// The name of this outcome, in upper case.
    pub fn to_string(&self) -> (name: String)
        ensures
            name@ == self.name(),
    {
        match self {
            StatusTransaction::Success => "SUCCESS".to_owned(),
            StatusTransaction::Failure => "FAILURE".to_owned(),
            StatusTransaction::Pending => "PENDING".to_owned(),
        }
    }

    /// Reads the name of an outcome.
    pub fn from_name(name: &[char]) -> (status: Option<Self>)
        ensures
            status == Self::of_name(name@),
    {
        if same_text(name, chars_of("SUCCESS").as_slice()) {
            Some(StatusTransaction::Success)
        } else if same_text(name, chars_of("FAILURE").as_slice()) {
            Some(StatusTransaction::Failure)
        } else if same_text(name, chars_of("PENDING").as_slice()) {
            Some(StatusTransaction::Pending)
        } else {
            None
        }
    }
}

/// The name of an outcome stands for that outcome, and its code too.
pub proof fn lemma_status_names(t: StatusTransaction)
    ensures
        StatusTransaction::of_name(t.name()) == Some(t),
        StatusTransaction::of_code(t.code()) == Some(t),
{
    reveal_strlit("SUCCESS");
    reveal_strlit("FAILURE");
    reveal_strlit("PENDING");
    assert("SUCCESS"@[0] == 'S');
    assert("FAILURE"@[0] == 'F');
    assert("PENDING"@[0] == 'P');
}

/// One transaction record.
#[derive(Debug, PartialEq, Clone)]
pub struct Message {
    /// The identifier of the transaction.
    pub tx_id: u64,
    /// The kind of the transaction.
    pub tx_type: TypeTransaction,
    /// The sending account; by convention 0 for a deposit.
    pub from_user_id: u64,
    /// The receiving account; by convention 0 for a withdrawal.
    pub to_user_id: u64,
    /// The amount, in the smallest unit of the currency.
    pub amount: u64,
    /// Milliseconds since the Unix epoch.
    pub timestamp: u64,
    /// The outcome of the transaction.
    pub status: StatusTransaction,
    /// Free text.
    pub description: String,
}

/// A record as a mathematical value: its description is a sequence of
/// characters.
pub ghost struct MessageView {
    pub tx_id: u64,
    pub tx_type: TypeTransaction,
    pub from_user_id: u64,
    pub to_user_id: u64,
    pub amount: u64,
    pub timestamp: u64,
    pub status: StatusTransaction,
    pub description: Seq<char>,
}

impl View for Message {
    type V = MessageView;

    open spec fn view(&self) -> MessageView {
        MessageView {
            tx_id: self.tx_id,
            tx_type: self.tx_type,
            from_user_id: self.from_user_id,
            to_user_id: self.to_user_id,
            amount: self.amount,
            timestamp: self.timestamp,
            status: self.status,
            description: self.description@,
        }
    }
}

/// The records of a list, each as a mathematical value.
pub open spec fn records_view(data: Seq<Message>) -> Seq<MessageView> {
    Seq::new(data.len(), |i: int| data[i]@)
}

/// The outcome of reading a collection, with the records as mathematical
/// values.
pub open spec fn outcome<C: View<V = Seq<MessageView>>>(res: Result<C>) -> Result<
    Seq<MessageView>,
> {
    match res {
        Ok(c) => Ok(c@),
        Err(e) => Err(e),
    }
}

/// A description between two double quotes.
pub open spec fn quoted(d: Seq<char>) -> Seq<char> {
    seq!['"'] + d + seq!['"']
}

/// A description without any of its double quotes.
pub open spec fn unquoted(d: Seq<char>) -> Seq<char>
    decreases d.len(),
{
    if d.len() == 0 {
        Seq::empty()
    } else if d.last() == '"' {
        unquoted(d.drop_last())
    } else {
        unquoted(d.drop_last()).push(d.last())
    }
}

/// How a conversion between two forms changes the description of a record.
#[derive(Debug, Clone, Copy, PartialEq, Eq, Structural)]
pub enum Remap {
    /// The description stays as it is.
    Keep,
    /// The description is put between two double quotes.
    Quote,
    /// Every double quote of the description is removed.
    Unquote,
}

impl Remap {
    /// The description after the change.
    pub open spec fn apply(self, d: Seq<char>) -> Seq<char> {
        match self {
            Remap::Keep => d,
            Remap::Quote => quoted(d),
            Remap::Unquote => unquoted(d),
        }
    }

    /// The record after the change: every field but the description stays.
    pub open spec fn record(self, m: MessageView) -> MessageView {
        MessageView { description: self.apply(m.description), ..m }
    }

    /// The records after the change, in their order.
    pub open spec fn records(self, ms: Seq<MessageView>) -> Seq<MessageView> {
        Seq::new(ms.len(), |i: int| self.record(ms[i]))
    }

    /// Changes a description.
    pub fn describe(self, d: &String) -> (res: String)
        ensures
            res@ == self.apply(d@),
    {
        match self {
            Remap::Keep => d.clone(),
            Remap::Quote => {
                let mut out: Vec<char> = Vec::new();
                out.push('"');
                crate::text::push_str(&mut out, d.as_str());
                out.push('"');
                assert(out@ =~= quoted(d@));
                crate::text::string_of(out.as_slice())
            },
            Remap::Unquote => {
                let chars = chars_of(d.as_str());
                let mut out: Vec<char> = Vec::new();
                let mut i: usize = 0;
                assert(chars@.take(0) =~= Seq::<char>::empty());
                while i < chars.len()
                    invariant
                        i <= chars.len(),
                        out@ == unquoted(chars@.take(i as int)),
                    decreases chars.len() - i,
                {
                    assert(chars@.take(i + 1).drop_last() =~= chars@.take(i as int));
                    if chars[i] != '"' {
                        out.push(chars[i]);
                    }
                    i += 1;
                }
                assert(chars@.take(i as int) =~= chars@);
                crate::text::string_of(out.as_slice())
            },
        }
    }

    /// Rebuilds every record of `it`, in order, with its description changed.
    pub fn rebuild(self, it: std::slice::Iter<'_, Message>) -> (out: Vec<Message>)
        requires
            it.decrease() is Some,
            it.initial_value_relation(&it),
        ensures
            records_view(out@) == self.records(records_view(into_iter_elts(it))),
    {
        let ghost all = records_view(into_iter_elts(it));
        let mut out: Vec<Message> = Vec::new();
        for mes in run: it
            invariant
                records_view(run.seq().unref()) == all,
                out@.len() == run.index(),
                forall|j: int|
                    0 <= j < run.index() ==> (#[trigger] out@[j])@ == self.record(all[j]),
        {
            out.push(
                Message {
                    tx_id: mes.tx_id,
                    tx_type: mes.tx_type,
                    from_user_id: mes.from_user_id,
                    to_user_id: mes.to_user_id,
                    amount: mes.amount,
                    timestamp: mes.timestamp,
                    status: mes.status,
                    description: self.describe(&mes.description),
                },
            );
        }
        assert(records_view(out@) =~= self.records(all));
        out
    }
}

} // verus!

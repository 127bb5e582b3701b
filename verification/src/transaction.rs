//! The canonical transaction types the engine consumes and the account
//! snapshot it produces.

use vstd::prelude::*;
use vstd::string::StrSliceExecFns;
use crate::amount::{Amount, parse_amount, spec_parse_amount};

pub mod engine;

verus! {

/// A unique identifier for a client.
#[derive(Clone, Copy, Debug, PartialEq, Eq, Structural, Hash)]
pub struct ClientId(pub u16);

impl From<u16> for ClientId {
    fn from(value: u16) -> (r: ClientId) {
        ClientId(value)
    }
}

impl vstd::std_specs::convert::FromSpecImpl<u16> for ClientId {
    open spec fn obeys_from_spec() -> bool {
        true
    }

    open spec fn from_spec(value: u16) -> ClientId {
        ClientId(value)
    }
}

/// A unique identifier for a deposit or withdrawal transaction; dispute,
/// resolve and chargeback transactions carry the identifier of the
/// transaction they refer to.
#[derive(Clone, Copy, Debug, PartialEq, Eq, Structural, Hash)]
pub struct TransactionId(pub u32);

impl From<u32> for TransactionId {
    fn from(value: u32) -> (r: TransactionId) {
        TransactionId(value)
    }
}

impl vstd::std_specs::convert::FromSpecImpl<u32> for TransactionId {
    open spec fn obeys_from_spec() -> bool {
        true
    }

    open spec fn from_spec(value: u32) -> TransactionId {
        TransactionId(value)
    }
}

/// The operation a transaction conveys.
#[derive(Clone, Copy, Debug, PartialEq, Eq, Structural)]
pub enum TransactionOperation {
    /// A credit to the client's account.
    Deposit(Amount),
    /// A debit to the client's account.
    Withdrawal(Amount),
    /// A claim that the referenced transaction was erroneous; its amount
    /// is held until the claim is settled.
    Dispute,
    /// Settles a dispute in favour of the transaction: held funds are
    /// released back to the available balance.
    Resolve,
    /// Settles a dispute against the transaction: held funds are removed
    /// and the account is permanently locked.
    Chargeback,
}

/// A transaction aimed at one client's account.
#[derive(Clone, Copy, Debug, PartialEq, Eq, Structural)]
pub struct Transaction {
    /// The client whose account the transaction applies to.
    pub client: ClientId,
    /// Unique for deposits and withdrawals; a reference to an earlier
    /// transaction for the other operations.
    pub id: TransactionId,
    /// The operation to apply.
    pub operation: TransactionOperation,
}

/// A snapshot of one client's account.
#[derive(Clone, Copy, Debug, PartialEq, Eq, Structural)]
pub struct Account {
    /// The client the account belongs to.
    pub client: ClientId,
    /// Funds the client can withdraw or spend.
    pub available: Amount,
    /// Funds frozen under active disputes.
    pub held: Amount,
    /// Available plus held funds.
    pub total: Amount,
    /// Set once a chargeback occurs; never reset.
    pub locked: bool,
}

/// The kind a raw transaction record names in its `type` field.
#[derive(Clone, Copy, Debug, PartialEq, Eq, Structural)]
pub enum RecordKind {
    /// A `deposit` record.
    Deposit,
    /// A `withdrawal` record.
    Withdrawal,
    /// A `dispute` record.
    Dispute,
    /// A `resolve` record.
    Resolve,
    /// A `chargeback` record.
    Chargeback,
}

/// Why a raw record cannot be converted to a [`Transaction`].
#[derive(Clone, Copy, Debug, PartialEq, Eq, Structural)]
pub enum ConvertError {
    /// The `type` field names none of the five record kinds.
    UnknownKind,
    /// A deposit or withdrawal record has no amount.
    MissingAmount,
    /// The amount field is not a well-formed decimal amount.
    InvalidAmount,
}

/// The character `c` with an upper-case ASCII letter folded to lower
/// case; any other character is itself.
pub open spec fn lower_char(c: char) -> char {
    if 65 <= c as u32 <= 90 {
        ((c as u32 + 32) as u8) as char
    } else {
        c
    }
}

/// Whether two texts are equal up to ASCII case.
pub open spec fn chars_eq_ignore_case(a: Seq<char>, b: Seq<char>) -> bool {
    a.len() == b.len() && forall|i: int|
        0 <= i < a.len() ==> lower_char(#[trigger] a[i]) == lower_char(b[i])
}

/// The record kind the `type` field `s` names, matched without regard to
/// ASCII case; `None` when it names none.
pub open spec fn spec_record_kind(s: Seq<char>) -> Option<RecordKind> {
    if chars_eq_ignore_case(s, "deposit"@) {
        Some(RecordKind::Deposit)
    } else if chars_eq_ignore_case(s, "withdrawal"@) {
        Some(RecordKind::Withdrawal)
    } else if chars_eq_ignore_case(s, "dispute"@) {
        Some(RecordKind::Dispute)
    } else if chars_eq_ignore_case(s, "resolve"@) {
        Some(RecordKind::Resolve)
    } else if chars_eq_ignore_case(s, "chargeback"@) {
        Some(RecordKind::Chargeback)
    } else {
        None
    }
}

fn eq_ignore_case(a: &str, b: &str) -> (r: bool)
    ensures
        r == chars_eq_ignore_case(a@, b@),
{
    let na = a.unicode_len();
    let nb = b.unicode_len();
    if na != nb {
        return false;
    }
    let mut i: usize = 0;
    while i < na
        invariant
            0 <= i <= na,
            na == a@.len(),
            na == b@.len(),
            forall|k: int| 0 <= k < i ==> lower_char(#[trigger] a@[k]) == lower_char(b@[k]),
        decreases na - i,
    {
        let ca = a.get_char(i) as u32;
        let cb = b.get_char(i) as u32;
        let la = if 65 <= ca && ca <= 90 {
            ca + 32
        } else {
            ca
        };
        let lb = if 65 <= cb && cb <= 90 {
            cb + 32
        } else {
            cb
        };
        if la != lb {
            return false;
        }
        i += 1;
    }
    true
}

/// The record kind the `type` field `s` names, matched without regard to
/// ASCII case.
pub fn record_kind(s: &str) -> (r: Option<RecordKind>)
    ensures
        r == spec_record_kind(s@),
{
    if eq_ignore_case(s, "deposit") {
        Some(RecordKind::Deposit)
    } else if eq_ignore_case(s, "withdrawal") {
        Some(RecordKind::Withdrawal)
    } else if eq_ignore_case(s, "dispute") {
        Some(RecordKind::Dispute)
    } else if eq_ignore_case(s, "resolve") {
        Some(RecordKind::Resolve)
    } else if eq_ignore_case(s, "chargeback") {
        Some(RecordKind::Chargeback)
    } else {
        None
    }
}

/// Converts one raw record, as the input stream carries it, to a
/// canonical [`Transaction`].
///
/// The `type` field is matched without regard to ASCII case; a deposit
/// or withdrawal must carry a well-formed amount; the other three kinds
/// ignore whatever amount the record carries.
pub fn to_transaction(kind: &str, client: u16, tx: u32, amount: Option<&str>) -> (r: Result<
    Transaction,
    ConvertError,
>)
    ensures
        match spec_record_kind(kind@) {
            None => r == Err::<Transaction, ConvertError>(ConvertError::UnknownKind),
            Some(k) => {
                let with_op = |op: TransactionOperation|
                    (r matches Ok(t) && t.client == ClientId(client) && t.id == TransactionId(tx)
                        && t.operation == op);
                match k {
                    RecordKind::Deposit | RecordKind::Withdrawal => match amount {
                        None => r == Err::<Transaction, ConvertError>(ConvertError::MissingAmount),
                        Some(text) => match spec_parse_amount(text@) {
                            None => r == Err::<Transaction, ConvertError>(
                                ConvertError::InvalidAmount,
                            ),
                            Some(v) => if k is Deposit {
                                with_op(TransactionOperation::Deposit(Amount { minor: v as i64 }))
                            } else {
                                with_op(
                                    TransactionOperation::Withdrawal(Amount { minor: v as i64 }),
                                )
                            },
                        },
                    },
                    RecordKind::Dispute => with_op(TransactionOperation::Dispute),
                    RecordKind::Resolve => with_op(TransactionOperation::Resolve),
                    RecordKind::Chargeback => with_op(TransactionOperation::Chargeback),
                }
            },
        },
{
    let kind = match record_kind(kind) {
        Some(k) => k,
        None => {
            return Err(ConvertError::UnknownKind);
        },
    };
    let operation = match kind {
        RecordKind::Deposit | RecordKind::Withdrawal => {
            let text = match amount {
                Some(text) => text,
                None => {
                    return Err(ConvertError::MissingAmount);
                },
            };
            let parsed = match parse_amount(text) {
                Some(a) => a,
                None => {
                    return Err(ConvertError::InvalidAmount);
                },
            };
            if matches!(kind, RecordKind::Deposit) {
                TransactionOperation::Deposit(parsed)
            } else {
                TransactionOperation::Withdrawal(parsed)
            }
        },
        RecordKind::Dispute => TransactionOperation::Dispute,
        RecordKind::Resolve => TransactionOperation::Resolve,
        RecordKind::Chargeback => TransactionOperation::Chargeback,
    };
    Ok(Transaction { client: ClientId(client), id: TransactionId(tx), operation })
}

} // verus!

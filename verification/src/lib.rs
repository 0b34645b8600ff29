use vstd::prelude::*;

pub mod classify;
pub mod ledger;

pub use ledger::Ledger;

verus! {

/// Greatest number of fractional digits a monetary amount may carry.
/// Amounts are held as a whole count of units of `10^-MAX_DECIMAL_PLACES`
/// currency units (ten-thousandths), so every representable amount already
/// has at most this many decimal places.
pub const MAX_DECIMAL_PLACES: u32 = 4;

/// The five transaction kinds. Deposit and Withdrawal move funds and carry an
/// amount; Dispute, Resolve and Chargeback reference an earlier movement by
/// its transaction id and carry no amount.
#[derive(Clone, Copy, Debug, PartialEq, Eq, Structural)]
pub enum TransactionType {
    Deposit,
    Withdrawal,
    Dispute,
    Resolve,
    Chargeback,
}

/// A parsed transaction record as the record source hands it over: the kind,
/// and the client id, transaction id and amount fields, each optional at
/// parse time. The amount is a non-negative fixed-point decimal held as a
/// count of ten-thousandths of a currency unit, already rounded by the
/// source.
#[derive(Clone, Copy, Debug)]
pub struct Transaction {
    pub transaction_type: TransactionType,
    pub client: Option<u16>,
    pub tx: Option<u32>,
    pub amount: Option<u64>,
}

/// One client account: its id, the funds free to withdraw, the funds frozen
/// pending dispute resolution, and whether a chargeback has permanently
/// locked the account. Balances are counts of ten-thousandths of a currency
/// unit; the total balance is the derived sum `available + held`.
#[derive(Clone, Copy, Debug, PartialEq, Eq, Structural)]
pub struct AccountStatus {
    pub client: u16,
    pub available: u64,
    pub held: u64,
    pub locked: bool,
}

/// Everything that can go wrong while classifying or processing records.
/// Dispute, Resolve and Chargeback business-rule mismatches (unknown
/// reference, wrong client, insufficient funds for the move) are deliberate
/// silent no-ops and never surface here.
#[derive(Clone, Copy, Debug, PartialEq, Eq, Structural)]
pub enum LedgerError {
    /// A record reached processing without a client id.
    MissingClientId,
    /// A record reached classification or processing without a transaction id.
    MissingTransactionId,
    /// A deposit or withdrawal reused a transaction id already recorded.
    DuplicateTransaction,
    /// A withdrawal asked for more than the account has available, or
    /// referenced a client with no account.
    InsufficientFunds,
    /// A record failed structural verification: a required field is missing,
    /// or an amount is present on a kind that must not carry one.
    IllegalState,
}

/// Command-line options resolved by the entry point: an input path and a
/// verbosity flag.
pub struct Args {
    pub infile: String,
    pub verbose: bool,
}

} // verus!

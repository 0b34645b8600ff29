use vstd::prelude::*;

use crate::{AccountStatus, LedgerError, Transaction, TransactionType};
use std::collections::HashMap;

verus! {

broadcast use
    vstd::std_specs::hash::group_hash_axioms,
    vstd::seq_lib::group_seq_properties,
;

/// Pushing an element a sequence does not hold keeps the sequence free of
/// duplicates.
proof fn lemma_push_no_duplicates(s: Seq<u16>, v: u16)
    requires
        s.no_duplicates(),
        !s.contains(v),
    ensures
        s.push(v).no_duplicates(),
{
    let t = s.push(v);
    assert forall|i: int, j: int|
        0 <= i < t.len() && 0 <= j < t.len() && i != j implies t[i] != t[j] by {
        if i < s.len() && j < s.len() {
        } else if i == s.len() {
            if t[j] == v {
                assert(s[j] == v);
                assert(s.contains(v));
            }
        } else {
            if t[i] == v {
                assert(s[i] == v);
                assert(s.contains(v));
            }
        }
    }
}

/// What the ledger records of an accepted deposit or withdrawal: the client
/// the movement belongs to and the amount it moved. Later disputes, resolves
/// and chargebacks look these two fields up by transaction id.
#[derive(Clone, Copy, Debug)]
pub struct Movement {
    pub client: u16,
    pub amount: u64,
}

/// The mathematical state of a ledger: the account table, the recorded
/// movements keyed by transaction id, and the client ids in the order their
/// accounts were created (the order the snapshot reports them in).
#[verifier::ext_equal]
pub struct LedgerModel {
    pub accounts: Map<u16, AccountStatus>,
    pub movements: Map<u32, Movement>,
    pub clients: Seq<u16>,
}

impl LedgerModel {
    /// Well-formedness: every account sits under its own client id and its
    /// total balance `available + held` fits the balance type (balances are
    /// unsigned, so neither part can be negative), and the creation-order
    /// client list carries exactly the account table's keys, each once.
    pub open spec fn wf(self) -> bool {
        &&& forall|c: u16| #[trigger] self.accounts.contains_key(c) ==> {
            &&& self.accounts[c].client == c
            &&& self.accounts[c].available + self.accounts[c].held <= u64::MAX
        }
        &&& self.clients.no_duplicates()
        &&& forall|c: u16| #[trigger] self.clients.contains(c) <==> self.accounts.contains_key(c)
    }

    /// The state a freshly constructed ledger is in.
    pub open spec fn empty() -> LedgerModel {
        LedgerModel {
            accounts: Map::empty(),
            movements: Map::empty(),
            clients: Seq::empty(),
        }
    }
}

/// The client id field of a record, defaulting to 0 when absent (only ever
/// read on paths that have established the field is present).
pub open spec fn client_of(t: Transaction) -> u16 {
    match t.client {
        Some(c) => c,
        None => 0,
    }
}

/// The transaction id field of a record, defaulting to 0 when absent.
pub open spec fn tx_of(t: Transaction) -> u32 {
    match t.tx {
        Some(x) => x,
        None => 0,
    }
}

/// The amount field of a record, defaulting to 0 when absent, exactly as the
/// deposit handler treats a missing amount.
pub open spec fn amount_of(t: Transaction) -> u64 {
    match t.amount {
        Some(a) => a,
        None => 0,
    }
}

/// Structural validity of a record: client id and transaction id present,
/// an amount present on fund-moving kinds and absent on dispute-family kinds.
pub open spec fn spec_verify(t: Transaction) -> bool {
    &&& t.client is Some
    &&& t.tx is Some
    &&& match t.transaction_type {
        TransactionType::Dispute
        | TransactionType::Resolve
        | TransactionType::Chargeback => t.amount is None,
        TransactionType::Deposit | TransactionType::Withdrawal => t.amount is Some,
    }
}

/// What a deposit does to the ledger, and what it returns. On success the
/// movement is recorded under its id and `amount` is credited to the
/// client's available funds, creating the account if it is unseen.
pub open spec fn spec_deposit(l: LedgerModel, t: Transaction) -> (LedgerModel, Result<
    (),
    LedgerError,
>) {
    if t.client is None {
        (l, Err(LedgerError::MissingClientId))
    } else if t.tx is None {
        (l, Err(LedgerError::MissingTransactionId))
    } else {
        let c = client_of(t);
        let x = tx_of(t);
        let a = amount_of(t);
        if l.movements.contains_key(x) {
            (l, Err(LedgerError::DuplicateTransaction))
        } else {
            let movements = l.movements.insert(x, Movement { client: c, amount: a });
            if l.accounts.contains_key(c) {
                let acct = l.accounts[c];
                let updated = AccountStatus {
                    available: (acct.available + a) as u64,
                    ..acct
                };
                (
                    LedgerModel {
                        accounts: l.accounts.insert(c, updated),
                        movements,
                        clients: l.clients,
                    },
                    Ok(()),
                )
            } else {
                let fresh = AccountStatus { client: c, available: a, held: 0, locked: false };
                (
                    LedgerModel {
                        accounts: l.accounts.insert(c, fresh),
                        movements,
                        clients: l.clients.push(c),
                    },
                    Ok(()),
                )
            }
        }
    }
}

/// What a withdrawal does to the ledger, and what it returns. The movement
/// is recorded under its id as soon as the id is found unique, before the
/// sufficiency check: a rejected withdrawal still occupies its transaction
/// id. Funds move only if the account exists and has enough available.
pub open spec fn spec_withdrawal(l: LedgerModel, t: Transaction) -> (LedgerModel, Result<
    (),
    LedgerError,
>) {
    if t.client is None {
        (l, Err(LedgerError::MissingClientId))
    } else if t.tx is None {
        (l, Err(LedgerError::MissingTransactionId))
    } else if t.amount is None {
        (l, Err(LedgerError::IllegalState))
    } else {
        let c = client_of(t);
        let x = tx_of(t);
        let a = amount_of(t);
        if l.movements.contains_key(x) {
            (l, Err(LedgerError::DuplicateTransaction))
        } else {
            let recorded = LedgerModel {
                movements: l.movements.insert(x, Movement { client: c, amount: a }),
                accounts: l.accounts,
                clients: l.clients,
            };
            if !l.accounts.contains_key(c) {
                (recorded, Err(LedgerError::InsufficientFunds))
            } else {
                let acct = l.accounts[c];
                if a > acct.available {
                    (recorded, Err(LedgerError::InsufficientFunds))
                } else {
                    let updated = AccountStatus {
                        available: (acct.available - a) as u64,
                        ..acct
                    };
                    (
                        LedgerModel {
                            accounts: l.accounts.insert(c, updated),
                            movements: recorded.movements,
                            clients: l.clients,
                        },
                        Ok(()),
                    )
                }
            }
        }
    }
}

/// What a dispute does. If the referenced movement exists, belongs to this
/// client, the account exists, and the movement's amount does not exceed the
/// available funds, that amount moves from available to held; otherwise the
/// record is a silent no-op. A dispute can never drive `available` negative.
pub open spec fn spec_dispute(l: LedgerModel, t: Transaction) -> (LedgerModel, Result<
    (),
    LedgerError,
>) {
    if t.client is None {
        (l, Err(LedgerError::MissingClientId))
    } else if t.tx is None {
        (l, Err(LedgerError::MissingTransactionId))
    } else {
        let c = client_of(t);
        let x = tx_of(t);
        if !l.movements.contains_key(x) || l.movements[x].client != c
            || !l.accounts.contains_key(c) {
            (l, Ok(()))
        } else {
            let a = l.movements[x].amount;
            let acct = l.accounts[c];
            if a <= acct.available {
                let updated = AccountStatus {
                    available: (acct.available - a) as u64,
                    held: (acct.held + a) as u64,
                    ..acct
                };
                (
                    LedgerModel {
                        accounts: l.accounts.insert(c, updated),
                        movements: l.movements,
                        clients: l.clients,
                    },
                    Ok(()),
                )
            } else {
                (l, Ok(()))
            }
        }
    }
}

/// What a resolve does. Under the same lookup checks as a dispute, if the
/// movement's amount does not exceed the held funds, that amount moves back
/// from held to available; otherwise a silent no-op.
pub open spec fn spec_resolve(l: LedgerModel, t: Transaction) -> (LedgerModel, Result<
    (),
    LedgerError,
>) {
    if t.client is None {
        (l, Err(LedgerError::MissingClientId))
    } else if t.tx is None {
        (l, Err(LedgerError::MissingTransactionId))
    } else {
        let c = client_of(t);
        let x = tx_of(t);
        if !l.movements.contains_key(x) || l.movements[x].client != c
            || !l.accounts.contains_key(c) {
            (l, Ok(()))
        } else {
            let a = l.movements[x].amount;
            let acct = l.accounts[c];
            if a <= acct.held {
                let updated = AccountStatus {
                    available: (acct.available + a) as u64,
                    held: (acct.held - a) as u64,
                    ..acct
                };
                (
                    LedgerModel {
                        accounts: l.accounts.insert(c, updated),
                        movements: l.movements,
                        clients: l.clients,
                    },
                    Ok(()),
                )
            } else {
                (l, Ok(()))
            }
        }
    }
}

/// What a chargeback does. Under the same lookup checks, the sufficiency
/// test is against the *available* funds, not the held funds: if the
/// movement's amount does not exceed what is available, that amount is
/// debited from available and the account is locked for good; otherwise
/// the record is a silent no-op that leaves the account unlocked.
pub open spec fn spec_chargeback(l: LedgerModel, t: Transaction) -> (LedgerModel, Result<
    (),
    LedgerError,
>) {
    if t.client is None {
        (l, Err(LedgerError::MissingClientId))
    } else if t.tx is None {
        (l, Err(LedgerError::MissingTransactionId))
    } else {
        let c = client_of(t);
        let x = tx_of(t);
        if !l.movements.contains_key(x) || l.movements[x].client != c
            || !l.accounts.contains_key(c) {
            (l, Ok(()))
        } else {
            let a = l.movements[x].amount;
            let acct = l.accounts[c];
            if a <= acct.available {
                let updated = AccountStatus {
                    available: (acct.available - a) as u64,
                    locked: true,
                    ..acct
                };
                (
                    LedgerModel {
                        accounts: l.accounts.insert(c, updated),
                        movements: l.movements,
                        clients: l.clients,
                    },
                    Ok(()),
                )
            } else {
                (l, Ok(()))
            }
        }
    }
}

/// What the dispatch entry point does with one record: reject a record with
/// no client id; silently accept (and ignore) anything aimed at a locked
/// account; reject a structurally invalid record; otherwise hand the record
/// to its kind's handler. A withdrawal's domain failure is swallowed here:
/// its state change (the recorded movement id) stays, but the call reports
/// success.
pub open spec fn spec_process(l: LedgerModel, t: Transaction) -> (LedgerModel, Result<
    (),
    LedgerError,
>) {
    if t.client is None {
        (l, Err(LedgerError::MissingClientId))
    } else {
        let c = client_of(t);
        if l.accounts.contains_key(c) && l.accounts[c].locked {
            (l, Ok(()))
        } else if !spec_verify(t) {
            (l, Err(LedgerError::IllegalState))
        } else {
            match t.transaction_type {
                TransactionType::Deposit => spec_deposit(l, t),
                TransactionType::Withdrawal => (spec_withdrawal(l, t).0, Ok(())),
                TransactionType::Dispute => spec_dispute(l, t),
                TransactionType::Resolve => spec_resolve(l, t),
                TransactionType::Chargeback => spec_chargeback(l, t),
            }
        }
    }
}

/// The one machine limit a caller must respect: if this record is a deposit
/// that will be accepted into an existing account, the credited total must
/// still fit the balance type. Every other operation only moves or removes
/// funds and cannot overflow.
pub open spec fn deposit_fits(l: LedgerModel, t: Transaction) -> bool {
    (t.client is Some && t.tx is Some && !l.movements.contains_key(tx_of(t))
        && l.accounts.contains_key(client_of(t))) ==> l.accounts[client_of(t)].available
        + l.accounts[client_of(t)].held + amount_of(t) <= u64::MAX
}

/// `deposit_fits`, gated the way the dispatch entry point is: only a deposit
/// that actually reaches its handler (the account is not locked) needs the
/// headroom.
pub open spec fn process_fits(l: LedgerModel, t: Transaction) -> bool {
    (t.transaction_type is Deposit && t.client is Some && !(l.accounts.contains_key(client_of(t))
        && l.accounts[client_of(t)].locked)) ==> deposit_fits(l, t)
}

/// Replaying a sequence of records: each is processed in turn; the first
/// error stops the replay and is returned with the state reached so far
/// (an erring record never changes the state).
pub open spec fn spec_replay(l: LedgerModel, recs: Seq<Transaction>) -> (LedgerModel, Result<
    (),
    LedgerError,
>)
    decreases recs.len(),
{
    if recs.len() == 0 {
        (l, Ok(()))
    } else {
        let step = spec_process(l, recs[0]);
        match step.1 {
            Ok(_) => spec_replay(step.0, recs.drop_first()),
            Err(e) => (step.0, Err(e)),
        }
    }
}

/// `process_fits` extended over a replay: every record that is reached
/// before the first error has the headroom it needs.
pub open spec fn replay_fits(l: LedgerModel, recs: Seq<Transaction>) -> bool
    decreases recs.len(),
{
    if recs.len() == 0 {
        true
    } else {
        &&& process_fits(l, recs[0])
        &&& match spec_process(l, recs[0]).1 {
            Ok(_) => replay_fits(spec_process(l, recs[0]).0, recs.drop_first()),
            Err(_) => true,
        }
    }
}

/// Replaying the four classified groups in the replay driver's fixed order:
/// fund movements first, then disputes, resolves and chargebacks. The first
/// hard error stops the whole replay.
pub open spec fn spec_replay_groups(
    l: LedgerModel,
    movements: Seq<Transaction>,
    disputes: Seq<Transaction>,
    resolves: Seq<Transaction>,
    chargebacks: Seq<Transaction>,
) -> (LedgerModel, Result<(), LedgerError>) {
    let (l1, r1) = spec_replay(l, movements);
    if r1 is Err {
        (l1, r1)
    } else {
        let (l2, r2) = spec_replay(l1, disputes);
        if r2 is Err {
            (l2, r2)
        } else {
            let (l3, r3) = spec_replay(l2, resolves);
            if r3 is Err {
                (l3, r3)
            } else {
                spec_replay(l3, chargebacks)
            }
        }
    }
}

/// `replay_fits` extended over the four groups in replay order.
pub open spec fn replay_groups_fits(
    l: LedgerModel,
    movements: Seq<Transaction>,
    disputes: Seq<Transaction>,
    resolves: Seq<Transaction>,
    chargebacks: Seq<Transaction>,
) -> bool {
    let (l1, r1) = spec_replay(l, movements);
    let (l2, r2) = spec_replay(l1, disputes);
    let (l3, r3) = spec_replay(l2, resolves);
    &&& replay_fits(l, movements)
    &&& r1 is Ok ==> replay_fits(l1, disputes)
    &&& r1 is Ok && r2 is Ok ==> replay_fits(l2, resolves)
    &&& r1 is Ok && r2 is Ok && r3 is Ok ==> replay_fits(l3, chargebacks)
}

/// Law: processing one record keeps every account well formed — its total
/// `available + held` still fits the balance type, and neither part can go
/// negative (balances are unsigned, and every debit is gated by a
/// sufficiency check). Applied step by step, this holds the invariant at
/// every point of a replay.
pub proof fn lemma_process_preserves_wf(l: LedgerModel, t: Transaction)
    requires
        l.wf(),
        process_fits(l, t),
    ensures
        spec_process(l, t).0.wf(),
{
    let (l1, r) = spec_process(l, t);
    if t.client is Some {
        let c = client_of(t);
        if !(l.accounts.contains_key(c) && l.accounts[c].locked) && spec_verify(t)
            && t.transaction_type is Deposit && !l.movements.contains_key(tx_of(t))
            && !l.accounts.contains_key(c) {
            lemma_push_no_duplicates(l.clients, c);
        }
    }
}

/// The same invariant over a whole run: a replay from a well-formed state
/// leaves the ledger well formed, whether it runs to completion or stops at
/// an error.
pub proof fn lemma_replay_preserves_wf(l: LedgerModel, recs: Seq<Transaction>)
    requires
        l.wf(),
        replay_fits(l, recs),
    ensures
        spec_replay(l, recs).0.wf(),
    decreases recs.len(),
{
    if recs.len() > 0 {
        lemma_process_preserves_wf(l, recs[0]);
        let step = spec_process(l, recs[0]);
        if step.1 is Ok {
            lemma_replay_preserves_wf(step.0, recs.drop_first());
        }
    }
}

/// Law: once a chargeback has locked a client's account, processing any
/// further record for that client — of any kind — reports success and
/// changes nothing.
pub proof fn lemma_lock_freezes(l: LedgerModel, t: Transaction)
    requires
        t.client is Some,
        l.accounts.contains_key(client_of(t)),
        l.accounts[client_of(t)].locked,
    ensures
        spec_process(l, t).0 == l,
        spec_process(l, t).1 is Ok,
{
}

/// Law: a deposit or withdrawal whose transaction id is already recorded —
/// whatever kind recorded it, and whichever client it belongs to — is
/// rejected with `DuplicateTransaction` and changes nothing.
pub proof fn lemma_duplicate_rejected(l: LedgerModel, t: Transaction)
    requires
        t.client is Some,
        t.tx is Some,
        l.movements.contains_key(tx_of(t)),
    ensures
        spec_deposit(l, t) == (l, Err::<(), LedgerError>(LedgerError::DuplicateTransaction)),
        t.amount is Some ==> spec_withdrawal(l, t) == (
            l,
            Err::<(), LedgerError>(LedgerError::DuplicateTransaction),
        ),
{
}

/// Law: disputing a movement and then resolving the same movement returns
/// the ledger to exactly the state it was in before the dispute — the same
/// available/held split, to the last ten-thousandth — provided the dispute
/// takes effect (the movement exists for this client, the account exists
/// and is not locked, and the amount fits in the available funds).
pub proof fn lemma_dispute_resolve_round_trip(
    l: LedgerModel,
    dispute: Transaction,
    resolve: Transaction,
)
    requires
        l.wf(),
        dispute.transaction_type is Dispute,
        resolve.transaction_type is Resolve,
        dispute.client is Some,
        dispute.tx is Some,
        dispute.amount is None,
        resolve.client == dispute.client,
        resolve.tx == dispute.tx,
        resolve.amount is None,
        l.movements.contains_key(tx_of(dispute)),
        l.movements[tx_of(dispute)].client == client_of(dispute),
        l.accounts.contains_key(client_of(dispute)),
        !l.accounts[client_of(dispute)].locked,
        l.movements[tx_of(dispute)].amount <= l.accounts[client_of(dispute)].available,
    ensures
        spec_process(spec_process(l, dispute).0, resolve).0 == l,
        spec_process(l, dispute).1 is Ok,
        spec_process(spec_process(l, dispute).0, resolve).1 is Ok,
{
    let c = client_of(dispute);
    let x = tx_of(dispute);
    let a = l.movements[x].amount;
    let l1 = spec_process(l, dispute).0;
    assert(l.accounts[c].held + a <= u64::MAX);
    let l2 = spec_process(l1, resolve).0;
    assert(l2.accounts =~= l.accounts);
    assert(l2 =~= l);
}

/// Law: the replay is a function of the classified input alone. Two fresh
/// engines fed the same four groups reach the same final state, so their
/// snapshots are identical.
pub proof fn lemma_replay_deterministic(
    l1: LedgerModel,
    l2: LedgerModel,
    movements: Seq<Transaction>,
    disputes: Seq<Transaction>,
    resolves: Seq<Transaction>,
    chargebacks: Seq<Transaction>,
)
    requires
        l1 == LedgerModel::empty(),
        l2 == LedgerModel::empty(),
    ensures
        spec_replay_groups(l1, movements, disputes, resolves, chargebacks) == spec_replay_groups(
            l2,
            movements,
            disputes,
            resolves,
            chargebacks,
        ),
{
}

/// The ledger engine: the account table, the movement table, and the client
/// ids in account-creation order (so the snapshot can enumerate the account
/// table without relying on hash iteration order).
pub struct InMemoryLedger {
    by_client_id: HashMap<u16, AccountStatus>,
    by_transaction_id: HashMap<u32, Movement>,
    client_ids: Vec<u16>,
}

/// The ledger interface the replay driver and the report sink program
/// against: anything whose state abstracts to a `LedgerModel` and whose
/// operations follow the model's transition functions.
pub trait Ledger: View<V = LedgerModel> + Sized {
    /// Processes one record, per `spec_process`: records for a locked
    /// account are ignored wholesale; a structurally invalid record is a
    /// hard error; otherwise the record is dispatched to its kind's
    /// handler, with a withdrawal's domain failure downgraded to a logged
    /// skip.
    fn process_transaction(&mut self, trans: &Transaction) -> (r: Result<(), LedgerError>)
        requires
            old(self)@.wf(),
            process_fits(old(self)@, *trans),
        ensures
            final(self)@.wf(),
            (final(self)@, r) == spec_process(old(self)@, *trans),
    ;

    /// The funds a client may withdraw, or nothing for an unseen client.
    fn get_funds_available(&self, client_id: u16) -> (r: Option<u64>)
        ensures
            r == (if self@.accounts.contains_key(client_id) {
                Some(self@.accounts[client_id].available)
            } else {
                None::<u64>
            }),
    ;

    /// The funds frozen pending dispute resolution, or nothing for an
    /// unseen client.
    fn get_funds_held(&self, client_id: u16) -> (r: Option<u64>)
        ensures
            r == (if self@.accounts.contains_key(client_id) {
                Some(self@.accounts[client_id].held)
            } else {
                None::<u64>
            }),
    ;

    /// The derived total balance `available + held`, or nothing for an
    /// unseen client.
    fn get_funds_total(&self, client_id: u16) -> (r: Option<u64>)
        requires
            self@.wf(),
        ensures
            r == (if self@.accounts.contains_key(client_id) {
                Some((self@.accounts[client_id].available + self@.accounts[client_id].held) as u64)
            } else {
                None::<u64>
            }),
    ;

    /// Every client that owns an account, in account-creation order, each
    /// exactly once.
    fn get_all_client_ids(&self) -> (r: Vec<u16>)
        ensures
            r@ == self@.clients,
    ;

    /// Structural verification of a record, per `spec_verify`: required ids
    /// present, amount present exactly on the fund-moving kinds.
    fn verify_transaction(&self, trans: &Transaction) -> (r: Result<(), LedgerError>)
        ensures
            r is Ok <==> spec_verify(*trans),
            r is Err ==> r == Err::<(), LedgerError>(LedgerError::IllegalState),
    ;
}

impl View for InMemoryLedger {
    type V = LedgerModel;

    closed spec fn view(&self) -> LedgerModel {
        LedgerModel {
            accounts: self.by_client_id@,
            movements: self.by_transaction_id@,
            clients: self.client_ids@,
        }
    }
}

impl Default for InMemoryLedger {
    /// A fresh engine: no accounts, no recorded movements.
    fn default() -> (r: Self)
        ensures
            r@ == LedgerModel::empty(),
            r@.wf(),
    {
        let r = InMemoryLedger {
            by_client_id: HashMap::new(),
            by_transaction_id: HashMap::new(),
            client_ids: Vec::new(),
        };
        proof {
            assert(r@ =~= LedgerModel::empty());
        }
        r
    }
}

impl InMemoryLedger {
    /// A new account for an unseen client: zero balances, unlocked.
    fn create_empty_accountstatus(client_id: u16) -> (r: AccountStatus)
        ensures
            r == (AccountStatus { client: client_id, available: 0, held: 0, locked: false }),
    {
        AccountStatus { client: client_id, available: 0, held: 0, locked: false }
    }

    /// Credits a deposit, per `spec_deposit`: the movement is recorded under
    /// its (previously unseen) transaction id and its amount is added to the
    /// client's available funds, creating the account on first sight.
    pub fn process_deposit(&mut self, trans: &Transaction) -> (r: Result<(), LedgerError>)
        requires
            old(self)@.wf(),
            deposit_fits(old(self)@, *trans),
        ensures
            final(self)@.wf(),
            (final(self)@, r) == spec_deposit(old(self)@, *trans),
    {
        let cid = match trans.client {
            Some(v) => v,
            None => {
                return Err(LedgerError::MissingClientId);
            },
        };
        let tid = match trans.tx {
            Some(v) => v,
            None => {
                return Err(LedgerError::MissingTransactionId);
            },
        };
        let amount = match trans.amount {
            Some(v) => v,
            None => 0,
        };
        if self.by_transaction_id.contains_key(&tid) {
            return Err(LedgerError::DuplicateTransaction);
        }
        self.by_transaction_id.insert(tid, Movement { client: cid, amount });
        let existing = match self.by_client_id.get(&cid) {
            Some(acct) => Some(*acct),
            None => None,
        };
        match existing {
            Some(acct) => {
                let updated = AccountStatus { available: acct.available + amount, ..acct };
                self.by_client_id.insert(cid, updated);
            },
            None => {
                let mut fresh = Self::create_empty_accountstatus(cid);
                fresh.available = amount;
                self.by_client_id.insert(cid, fresh);
                proof {
                    lemma_push_no_duplicates(self.client_ids@, cid);
                }
                self.client_ids.push(cid);
            },
        }
        Ok(())
    }

    /// Applies a withdrawal, per `spec_withdrawal`: the movement is recorded
    /// under its (previously unseen) transaction id before the sufficiency
    /// check, then the amount is debited from the client's available funds
    /// if the account exists and has enough.
    pub fn process_withdrawal(&mut self, trans: &Transaction) -> (r: Result<(), LedgerError>)
        requires
            old(self)@.wf(),
        ensures
            final(self)@.wf(),
            (final(self)@, r) == spec_withdrawal(old(self)@, *trans),
    {
        let cid = match trans.client {
            Some(v) => v,
            None => {
                return Err(LedgerError::MissingClientId);
            },
        };
        let tid = match trans.tx {
            Some(v) => v,
            None => {
                return Err(LedgerError::MissingTransactionId);
            },
        };
        let amount = match trans.amount {
            Some(v) => v,
            None => {
                return Err(LedgerError::IllegalState);
            },
        };
        if self.by_transaction_id.contains_key(&tid) {
            return Err(LedgerError::DuplicateTransaction);
        }
        self.by_transaction_id.insert(tid, Movement { client: cid, amount });
        let existing = match self.by_client_id.get(&cid) {
            Some(acct) => Some(*acct),
            None => None,
        };
        match existing {
            Some(acct) => {
                if amount > acct.available {
                    return Err(LedgerError::InsufficientFunds);
                }
                let updated = AccountStatus { available: acct.available - amount, ..acct };
                self.by_client_id.insert(cid, updated);
            },
            None => {
                return Err(LedgerError::InsufficientFunds);
            },
        }
        Ok(())
    }

    /// Applies a dispute, per `spec_dispute`: if the referenced movement
    /// exists for this client and its amount fits in the available funds,
    /// that amount moves from available to held; otherwise nothing changes.
    pub fn process_dispute(&mut self, trans: &Transaction) -> (r: Result<(), LedgerError>)
        requires
            old(self)@.wf(),
        ensures
            final(self)@.wf(),
            (final(self)@, r) == spec_dispute(old(self)@, *trans),
    {
        let cid = match trans.client {
            Some(v) => v,
            None => {
                return Err(LedgerError::MissingClientId);
            },
        };
        let tid = match trans.tx {
            Some(v) => v,
            None => {
                return Err(LedgerError::MissingTransactionId);
            },
        };
        let mov = match self.by_transaction_id.get(&tid) {
            Some(m) => *m,
            None => {
                return Ok(());
            },
        };
        if mov.client != cid {
            return Ok(());
        }
        let acct = match self.by_client_id.get(&cid) {
            Some(a) => *a,
            None => {
                return Ok(());
            },
        };
        if mov.amount <= acct.available {
            let updated = AccountStatus {
                available: acct.available - mov.amount,
                held: acct.held + mov.amount,
                ..acct
            };
            self.by_client_id.insert(cid, updated);
        }
        Ok(())
    }

    /// Applies a resolve, per `spec_resolve`: if the referenced movement
    /// exists for this client and its amount fits in the held funds, that
    /// amount moves back from held to available; otherwise nothing changes.
    pub fn process_resolve(&mut self, trans: &Transaction) -> (r: Result<(), LedgerError>)
        requires
            old(self)@.wf(),
        ensures
            final(self)@.wf(),
            (final(self)@, r) == spec_resolve(old(self)@, *trans),
    {
        let cid = match trans.client {
            Some(v) => v,
            None => {
                return Err(LedgerError::MissingClientId);
            },
        };
        let tid = match trans.tx {
            Some(v) => v,
            None => {
                return Err(LedgerError::MissingTransactionId);
            },
        };
        let mov = match self.by_transaction_id.get(&tid) {
            Some(m) => *m,
            None => {
                return Ok(());
            },
        };
        if mov.client != cid {
            return Ok(());
        }
        let acct = match self.by_client_id.get(&cid) {
            Some(a) => *a,
            None => {
                return Ok(());
            },
        };
        if mov.amount <= acct.held {
            let updated = AccountStatus {
                available: acct.available + mov.amount,
                held: acct.held - mov.amount,
                ..acct
            };
            self.by_client_id.insert(cid, updated);
        }
        Ok(())
    }

    /// Applies a chargeback, per `spec_chargeback`: if the referenced
    /// movement exists for this client and its amount fits in the
    /// *available* funds, that amount is withdrawn and the account is locked
    /// for good; otherwise nothing changes and the account stays unlocked.
    pub fn process_chargeback(&mut self, trans: &Transaction) -> (r: Result<(), LedgerError>)
        requires
            old(self)@.wf(),
        ensures
            final(self)@.wf(),
            (final(self)@, r) == spec_chargeback(old(self)@, *trans),
    {
        let cid = match trans.client {
            Some(v) => v,
            None => {
                return Err(LedgerError::MissingClientId);
            },
        };
        let tid = match trans.tx {
            Some(v) => v,
            None => {
                return Err(LedgerError::MissingTransactionId);
            },
        };
        let mov = match self.by_transaction_id.get(&tid) {
            Some(m) => *m,
            None => {
                return Ok(());
            },
        };
        if mov.client != cid {
            return Ok(());
        }
        let acct = match self.by_client_id.get(&cid) {
            Some(a) => *a,
            None => {
                return Ok(());
            },
        };
        if mov.amount <= acct.available {
            let updated = AccountStatus {
                available: acct.available - mov.amount,
                locked: true,
                ..acct
            };
            self.by_client_id.insert(cid, updated);
        }
        Ok(())
    }

    /// Processes a whole group of records in order, stopping at the first
    /// hard error, per `spec_replay`.
    fn process_all(&mut self, recs: &Vec<Transaction>) -> (r: Result<(), LedgerError>)
        requires
            old(self)@.wf(),
            replay_fits(old(self)@, recs@),
        ensures
            final(self)@.wf(),
            (final(self)@, r) == spec_replay(old(self)@, recs@),
    {
        let ghost l0 = self@;
        let ghost s = recs@;
        proof {
            assert(s.skip(0) =~= s);
        }
        let mut i: usize = 0;
        while i < recs.len()
            invariant
                0 <= i <= recs.len(),
                s == recs@,
                l0 == old(self)@,
                self@.wf(),
                replay_fits(self@, s.skip(i as int)),
                spec_replay(l0, s) == spec_replay(self@, s.skip(i as int)),
            decreases recs.len() - i,
        {
            let ghost pre = self@;
            let t = recs[i];
            proof {
                assert(s.skip(i as int)[0] == s[i as int]);
                assert(s.skip(i as int).drop_first() =~= s.skip(i as int + 1));
            }
            let step = self.process_transaction(&t);
            if let Err(e) = step {
                return Err(e);
            }
            i = i + 1;
        }
        proof {
            assert(s.skip(recs@.len() as int) =~= Seq::<Transaction>::empty());
        }
        Ok(())
    }

    /// Replays the four classified groups in the fixed order: all deposits
    /// and withdrawals (handed over in ascending transaction-id order), then
    /// all disputes, resolves and chargebacks, each in arrival order. The
    /// first hard error stops the replay; a withdrawal's domain failure is
    /// not one (see `spec_process`).
    pub fn read_transactions(
        &mut self,
        withdraw_deposits: &Vec<Transaction>,
        disputes: &Vec<Transaction>,
        resolves: &Vec<Transaction>,
        chargebacks: &Vec<Transaction>,
    ) -> (r: Result<(), LedgerError>)
        requires
            old(self)@.wf(),
            replay_groups_fits(old(self)@, withdraw_deposits@, disputes@, resolves@, chargebacks@),
        ensures
            final(self)@.wf(),
            (final(self)@, r) == spec_replay_groups(
                old(self)@,
                withdraw_deposits@,
                disputes@,
                resolves@,
                chargebacks@,
            ),
    {
        let r1 = self.process_all(withdraw_deposits);
        if let Err(e) = r1 {
            return Err(e);
        }
        let r2 = self.process_all(disputes);
        if let Err(e) = r2 {
            return Err(e);
        }
        let r3 = self.process_all(resolves);
        if let Err(e) = r3 {
            return Err(e);
        }
        self.process_all(chargebacks)
    }

    /// The read-only snapshot the report sink renders: one row per account,
    /// in account-creation order. Row `i` is the account of client
    /// `clients[i]`; together with well-formedness this makes every account
    /// appear exactly once.
    pub fn snapshot(&self) -> (rows: Vec<AccountStatus>)
        requires
            self@.wf(),
        ensures
            rows@.len() == self@.clients.len(),
            forall|i: int|
                0 <= i < rows@.len() ==> rows@[i] == self@.accounts[self@.clients[i]],
    {
        let mut rows: Vec<AccountStatus> = Vec::new();
        let mut i: usize = 0;
        while i < self.client_ids.len()
            invariant
                0 <= i <= self.client_ids.len(),
                self@.wf(),
                rows@.len() == i,
                forall|j: int|
                    0 <= j < i ==> rows@[j] == self@.accounts[self@.clients[j]],
            decreases self.client_ids.len() - i,
        {
            let cid = self.client_ids[i];
            proof {
                assert(self@.clients.contains(cid));
            }
            match self.by_client_id.get(&cid) {
                Some(acct) => {
                    rows.push(*acct);
                },
                None => {
                    proof {
                        assert(false);
                    }
                },
            }
            i = i + 1;
        }
        rows
    }

}

impl Ledger for InMemoryLedger {
    fn process_transaction(&mut self, trans: &Transaction) -> (r: Result<(), LedgerError>) {
        let cid = match trans.client {
            Some(v) => v,
            None => {
                return Err(LedgerError::MissingClientId);
            },
        };
        if let Some(acct) = self.by_client_id.get(&cid) {
            if acct.locked {
                return Ok(());
            }
        }
        if let Err(e) = self.verify_transaction(trans) {
            return Err(e);
        }
        match trans.transaction_type {
            TransactionType::Deposit => self.process_deposit(trans),
            TransactionType::Withdrawal => {
                match self.process_withdrawal(trans) {
                    Ok(_) => {},
                    Err(_) => {},
                }
                Ok(())
            },
            TransactionType::Dispute => self.process_dispute(trans),
            TransactionType::Resolve => self.process_resolve(trans),
            TransactionType::Chargeback => self.process_chargeback(trans),
        }
    }

    fn get_funds_available(&self, client_id: u16) -> (r: Option<u64>) {
        match self.by_client_id.get(&client_id) {
            Some(acct) => Some(acct.available),
            None => None,
        }
    }

    fn get_funds_held(&self, client_id: u16) -> (r: Option<u64>) {
        match self.by_client_id.get(&client_id) {
            Some(acct) => Some(acct.held),
            None => None,
        }
    }

    fn get_funds_total(&self, client_id: u16) -> (r: Option<u64>) {
        match self.by_client_id.get(&client_id) {
            Some(acct) => {
                proof {
                    assert(self@.accounts.contains_key(client_id));
                }
                Some(acct.available + acct.held)
            },
            None => None,
        }
    }

    fn get_all_client_ids(&self) -> (r: Vec<u16>) {
        let mut r: Vec<u16> = Vec::new();
        let mut i: usize = 0;
        while i < self.client_ids.len()
            invariant
                0 <= i <= self.client_ids.len(),
                r@ == self.client_ids@.take(i as int),
            decreases self.client_ids.len() - i,
        {
            r.push(self.client_ids[i]);
            proof {
                assert(r@ =~= self.client_ids@.take(i as int + 1));
            }
            i = i + 1;
        }
        proof {
            assert(self.client_ids@.take(self.client_ids@.len() as int) =~= self.client_ids@);
        }
        r
    }

    fn verify_transaction(&self, trans: &Transaction) -> (r: Result<(), LedgerError>) {
        if trans.client.is_none() || trans.tx.is_none() {
            return Err(LedgerError::IllegalState);
        }
        match trans.transaction_type {
            TransactionType::Dispute | TransactionType::Resolve | TransactionType::Chargeback => {
                if trans.amount.is_some() {
                    return Err(LedgerError::IllegalState);
                }
            },
            TransactionType::Deposit | TransactionType::Withdrawal => {
                if trans.amount.is_none() {
                    return Err(LedgerError::IllegalState);
                }
            },
        }
        Ok(())
    }
}

} // verus!

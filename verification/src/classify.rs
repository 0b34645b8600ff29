use vstd::prelude::*;

use crate::ledger::tx_of;
use crate::{LedgerError, Transaction, TransactionType};

verus! {

broadcast use
    vstd::seq_lib::group_seq_properties,
    Seq::lemma_filter_push,
    Seq::lemma_take_succ_push,
;

/// A fund-moving record: the two kinds that carry an amount and populate
/// the transaction-id namespace.
pub open spec fn is_movement(t: Transaction) -> bool {
    t.transaction_type is Deposit || t.transaction_type is Withdrawal
}

/// Every record carries a transaction id. Classification requires this of
/// the whole input.
pub open spec fn all_have_tx(recs: Seq<Transaction>) -> bool {
    forall|i: int| 0 <= i < recs.len() ==> (#[trigger] recs[i]).tx is Some
}

/// The table the fund-moving records of a raw sequence build, keyed by
/// transaction id: a later record with the same id replaces an earlier one.
pub open spec fn movements_table(recs: Seq<Transaction>) -> Map<u32, Transaction>
    decreases recs.len(),
{
    if recs.len() == 0 {
        Map::empty()
    } else {
        let m = movements_table(recs.drop_last());
        if is_movement(recs.last()) {
            m.insert(tx_of(recs.last()), recs.last())
        } else {
            m
        }
    }
}

/// The records are in strictly ascending transaction-id order (which also
/// makes their ids pairwise distinct).
pub open spec fn sorted_by_tx(s: Seq<Transaction>) -> bool {
    forall|i: int, j: int|
        0 <= i < j < s.len() ==> tx_of(#[trigger] s[i]) < tx_of(#[trigger] s[j])
}

/// The sequence lists exactly the entries of the table: every element is
/// the table's record for its own id, and every id in the table appears.
pub open spec fn lists_table(s: Seq<Transaction>, m: Map<u32, Transaction>) -> bool {
    &&& forall|k: int|
        0 <= k < s.len() ==> m.contains_key(tx_of(#[trigger] s[k])) && m[tx_of(s[k])] == s[k]
    &&& forall|x: u32|
        #[trigger] m.contains_key(x) ==> exists|k: int|
            0 <= k < s.len() && tx_of(#[trigger] s[k]) == x
}

/// The transaction id of a record, 0 when the field is absent, exactly as
/// `tx_of` reads it.
fn tx_key(t: &Transaction) -> (r: u32)
    ensures
        r == tx_of(*t),
{
    match t.tx {
        Some(v) => v,
        None => 0,
    }
}

/// Puts a fund-moving record into the id-ordered collection: a record with
/// the same transaction id is replaced, otherwise the record is inserted at
/// the position its id orders it to.
fn insert_movement(movs: &mut Vec<Transaction>, t: Transaction)
    requires
        sorted_by_tx(old(movs)@),
    ensures
        sorted_by_tx(final(movs)@),
        final(movs)@.contains(t),
        forall|k: int|
            0 <= k < final(movs)@.len() ==> ((#[trigger] final(movs)@[k]) == t || (tx_of(
                final(movs)@[k],
            ) != tx_of(t) && old(movs)@.contains(final(movs)@[k]))),
        forall|k: int|
            0 <= k < old(movs)@.len() && tx_of(#[trigger] old(movs)@[k]) != tx_of(t)
                ==> final(movs)@.contains(old(movs)@[k]),
{
    let tid = tx_key(&t);
    let mut i: usize = 0;
    while i < movs.len() && tx_key(&movs[i]) < tid
        invariant
            0 <= i <= movs.len(),
            forall|j: int| 0 <= j < i ==> tx_of(#[trigger] movs@[j]) < tid,
        decreases movs.len() - i,
    {
        i = i + 1;
    }
    if i < movs.len() && tx_key(&movs[i]) == tid {
        movs.set(i, t);
        proof {
            let o = old(movs)@;
            let n = movs@;
            assert(n[i as int] == t);
            assert(n.contains(t));
            assert forall|k: int|
                0 <= k < n.len() implies (n[k] == t || (tx_of(n[k]) != tx_of(t) && o.contains(
                n[k],
            ))) by {
                if k != i {
                    assert(n[k] == o[k]);
                    assert(o.contains(o[k]));
                    if k < i {
                        assert(tx_of(o[k]) < tx_of(o[i as int]));
                    } else {
                        assert(tx_of(o[i as int]) < tx_of(o[k]));
                    }
                }
            }
            assert forall|k: int|
                0 <= k < o.len() && tx_of(o[k]) != tx_of(t) implies n.contains(o[k]) by {
                assert(k != i);
                assert(n[k] == o[k]);
                assert(n.contains(n[k]));
            }
        }
    } else {
        let ghost o = movs@;
        proof {
            o.insert_ensures(i as int, t);
            if i < o.len() {
                assert(tx_of(o[i as int]) > tid);
            }
        }
        movs.insert(i, t);
        proof {
            let n = movs@;
            assert(n[i as int] == t);
            assert(n.contains(t));
            assert forall|j: int, k: int|
                0 <= j < k < n.len() implies tx_of(n[j]) < tx_of(n[k]) by {
                if j < i {
                    assert(n[j] == o[j]);
                } else if j > i {
                    assert(n[j] == o[j - 1]);
                    assert(tx_of(o[j - 1]) >= tx_of(o[i as int]));
                }
                if k < i {
                    assert(n[k] == o[k]);
                } else if k > i {
                    assert(n[k] == o[k - 1]);
                    assert(tx_of(o[k - 1]) >= tx_of(o[i as int]));
                }
            }
            assert forall|k: int|
                0 <= k < n.len() implies (n[k] == t || (tx_of(n[k]) != tx_of(t) && o.contains(
                n[k],
            ))) by {
                if k < i {
                    assert(n[k] == o[k]);
                    assert(o.contains(o[k]));
                } else if k > i {
                    assert(n[k] == o[k - 1]);
                    assert(o.contains(o[k - 1]));
                    assert(tx_of(o[k - 1]) >= tx_of(o[i as int]));
                }
            }
            assert forall|k: int|
                0 <= k < o.len() && tx_of(o[k]) != tx_of(t) implies n.contains(o[k]) by {
                if k < i {
                    assert(n[k] == o[k]);
                    assert(n.contains(n[k]));
                } else {
                    assert(n[k + 1] == o[k]);
                    assert(n.contains(n[k + 1]));
                }
            }
        }
    }
}

/// Partitions a raw record sequence into the four groups the replay driver
/// consumes: the deposit/withdrawal records keyed by transaction id in
/// ascending id order (a reused id keeping only the latest record), and the
/// dispute, resolve and chargeback records each in arrival order. Amounts
/// are passed through untouched. Fails if any record lacks a transaction
/// id; client-id and amount presence are the engine's business.
#[verifier::loop_isolation(false)]
pub fn classify_transactions(records: &Vec<Transaction>) -> (r: Result<
    (Vec<Transaction>, Vec<Transaction>, Vec<Transaction>, Vec<Transaction>),
    LedgerError,
>)
    ensures
        r is Ok <==> all_have_tx(records@),
        r is Err ==> r == Err::<
            (Vec<Transaction>, Vec<Transaction>, Vec<Transaction>, Vec<Transaction>),
            LedgerError,
        >(LedgerError::MissingTransactionId),
        r matches Ok(groups) ==> {
            &&& sorted_by_tx(groups.0@)
            &&& lists_table(groups.0@, movements_table(records@))
            &&& groups.1@ == records@.filter(|t: Transaction| t.transaction_type is Dispute)
            &&& groups.2@ == records@.filter(|t: Transaction| t.transaction_type is Resolve)
            &&& groups.3@ == records@.filter(|t: Transaction| t.transaction_type is Chargeback)
        },
{
    let ghost s = records@;
    let ghost dispute_pred = |t: Transaction| t.transaction_type is Dispute;
    let ghost resolve_pred = |t: Transaction| t.transaction_type is Resolve;
    let ghost chargeback_pred = |t: Transaction| t.transaction_type is Chargeback;
    let mut movs: Vec<Transaction> = Vec::new();
    let mut disputes: Vec<Transaction> = Vec::new();
    let mut resolves: Vec<Transaction> = Vec::new();
    let mut chargebacks: Vec<Transaction> = Vec::new();
    proof {
        assert(s.take(0) =~= Seq::<Transaction>::empty());
        reveal(Seq::filter);
    }
    let mut i: usize = 0;
    while i < records.len()
        invariant
            0 <= i <= records.len(),
            s == records@,
            forall|j: int| 0 <= j < i ==> (#[trigger] s[j]).tx is Some,
            sorted_by_tx(movs@),
            lists_table(movs@, movements_table(s.take(i as int))),
            disputes@ == s.take(i as int).filter(dispute_pred),
            resolves@ == s.take(i as int).filter(resolve_pred),
            chargebacks@ == s.take(i as int).filter(chargeback_pred),
        decreases records.len() - i,
    {
        let t = records[i];
        if t.tx.is_none() {
            return Err(LedgerError::MissingTransactionId);
        }
        proof {
            let prev = s.take(i as int);
            let nxt = s.take(i as int + 1);
            assert(nxt =~= prev.push(s[i as int]));
            assert(nxt.drop_last() =~= prev);
            reveal(Seq::filter);
            assert(nxt.filter(dispute_pred) == prev.push(s[i as int]).filter(dispute_pred));
            assert(nxt.filter(resolve_pred) == prev.push(s[i as int]).filter(resolve_pred));
            assert(nxt.filter(chargeback_pred) == prev.push(s[i as int]).filter(
                chargeback_pred,
            ));
        }
        let ghost table_pre = movements_table(s.take(i as int));
        match t.transaction_type {
            TransactionType::Deposit | TransactionType::Withdrawal => {
                let ghost movs_pre = movs@;
                insert_movement(&mut movs, t);
                proof {
                    let table = movements_table(s.take(i as int + 1));
                    assert(table == table_pre.insert(tx_of(t), t));
                    assert forall|k: int|
                        0 <= k < movs@.len() implies table.contains_key(tx_of(
                        #[trigger] movs@[k],
                    )) && table[tx_of(movs@[k])] == movs@[k] by {
                        if movs@[k] != t {
                            assert(tx_of(movs@[k]) != tx_of(t));
                            assert(movs_pre.contains(movs@[k]));
                            let j = choose|j: int|
                                0 <= j < movs_pre.len() && movs_pre[j] == movs@[k];
                            assert(table_pre.contains_key(tx_of(movs_pre[j])));
                        }
                    }
                    assert forall|x: u32| #[trigger]
                        table.contains_key(x) implies exists|k: int|
                        0 <= k < movs@.len() && tx_of(#[trigger] movs@[k]) == x by {
                        if x == tx_of(t) {
                            assert(movs@.contains(t));
                            let k = choose|k: int| 0 <= k < movs@.len() && movs@[k] == t;
                            assert(tx_of(movs@[k]) == x);
                        } else {
                            assert(table_pre.contains_key(x));
                            let j = choose|j: int|
                                0 <= j < movs_pre.len() && tx_of(#[trigger] movs_pre[j]) == x;
                            assert(movs@.contains(movs_pre[j]));
                            let k = choose|k: int|
                                0 <= k < movs@.len() && movs@[k] == movs_pre[j];
                            assert(tx_of(movs@[k]) == x);
                        }
                    }
                }
            },
            TransactionType::Dispute => {
                disputes.push(t);
            },
            TransactionType::Resolve => {
                resolves.push(t);
            },
            TransactionType::Chargeback => {
                chargebacks.push(t);
            },
        }
        i = i + 1;
    }
    proof {
        assert(s.take(s.len() as int) =~= s);
    }
    Ok((movs, disputes, resolves, chargebacks))
}

} // verus!

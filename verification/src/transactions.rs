//! Transactions: listing, creating, changing, removing.
//!
//! A transaction is always a leaf: nothing points at it, so removing one
//! touches no other row. It must name an existing account and an existing
//! category, when it is created and whenever it is rewritten.

use vstd::prelude::*;
use crate::error::StoreError;
use crate::records::{Transaction, TransactionView};
use crate::store::{Store, Tables, lemma_ids_push, lemma_ids_remove, lemma_index_of_id};

verus! {

/// The test that a transaction belongs to the account `account_id`.
pub open spec fn in_account(account_id: i64) -> spec_fn(TransactionView) -> bool {
    |t: TransactionView| t.account_id == account_id
}

/// The rows of `rows` that belong to the account `account_id`, in order.
pub open spec fn rows_of_account(rows: Seq<TransactionView>, account_id: i64) -> Seq<
    TransactionView,
> {
    rows.filter(in_account(account_id))
}

impl Tables {
    /// The id that the next transaction gets.
    pub open spec fn next_transaction_id(self) -> i64
        recommends
            self.last_transaction_id < i64::MAX,
    {
        (self.last_transaction_id + 1) as i64
    }

    /// The transactions of the account `account_id`, in table order.
    pub open spec fn transactions_of(self, account_id: i64) -> Seq<TransactionView> {
        rows_of_account(self.transactions, account_id)
    }

    /// Effect of creating a transaction. Its account and its category must
    /// exist.
    pub open spec fn insert_transaction(
        self,
        account_id: i64,
        amount_cents: i64,
        transaction_type: Seq<char>,
        description: Seq<char>,
        transaction_date: Seq<char>,
        category_id: i64,
    ) -> Result<Tables, StoreError> {
        if self.last_transaction_id == i64::MAX {
            Err(StoreError::Full)
        } else if !self.has_account(account_id) || !self.has_category(category_id) {
            Err(StoreError::Constraint)
        } else {
            Ok(
                Tables {
                    transactions: self.transactions.push(
                        TransactionView {
                            id: self.next_transaction_id(),
                            account_id,
                            amount_cents,
                            transaction_type,
                            description,
                            transaction_date,
                            category_id,
                        },
                    ),
                    last_transaction_id: self.next_transaction_id(),
                    ..self
                },
            )
        }
    }

    /// Effect of rewriting every field of the transaction `id` but the id.
    /// Where no transaction has that id, nothing changes and nothing fails.
    pub open spec fn update_transaction(
        self,
        id: i64,
        account_id: i64,
        amount_cents: i64,
        transaction_type: Seq<char>,
        description: Seq<char>,
        transaction_date: Seq<char>,
        category_id: i64,
    ) -> Result<Tables, StoreError> {
        if !self.has_transaction(id) {
            Ok(self)
        } else if !self.has_account(account_id) || !self.has_category(category_id) {
            Err(StoreError::Constraint)
        } else {
            Ok(
                Tables {
                    transactions: self.transactions.update(
                        self.transaction_index(id),
                        TransactionView {
                            id,
                            account_id,
                            amount_cents,
                            transaction_type,
                            description,
                            transaction_date,
                            category_id,
                        },
                    ),
                    ..self
                },
            )
        }
    }

    /// Effect of removing the transaction `id`. Where no transaction has that
    /// id, nothing changes.
    pub open spec fn remove_transaction(self, id: i64) -> Tables {
        if !self.has_transaction(id) {
            self
        } else {
            Tables { transactions: self.transactions.remove(self.transaction_index(id)), ..self }
        }
    }
}

/// Creating a transaction keeps the ledger's integrity.
pub proof fn lemma_insert_transaction_wf(
    t: Tables,
    account_id: i64,
    amount_cents: i64,
    transaction_type: Seq<char>,
    description: Seq<char>,
    transaction_date: Seq<char>,
    category_id: i64,
)
    requires
        t.wf(),
        t.insert_transaction(
            account_id,
            amount_cents,
            transaction_type,
            description,
            transaction_date,
            category_id,
        ) is Ok,
    ensures
        t.insert_transaction(
            account_id,
            amount_cents,
            transaction_type,
            description,
            transaction_date,
            category_id,
        )->Ok_0.wf(),
{
    let u = t.insert_transaction(
        account_id,
        amount_cents,
        transaction_type,
        description,
        transaction_date,
        category_id,
    )->Ok_0;
    let n = t.transactions.len() as int;
    lemma_ids_push(t.transaction_ids(), t.last_transaction_id);
    assert(u.transaction_ids() =~= t.transaction_ids().push(t.next_transaction_id()));
    assert(u.account_ids() =~= t.account_ids());
    assert(u.category_ids() =~= t.category_ids());
    assert forall|i: int| 0 <= i < u.transactions.len() implies u.has_category(
        (#[trigger] u.transactions[i]).category_id,
    ) && u.has_account(u.transactions[i].account_id) by {
        if i < n {
            assert(u.transactions[i] == t.transactions[i]);
        }
    }
}

/// Rewriting a transaction keeps the ledger's integrity.
pub proof fn lemma_update_transaction_wf(
    t: Tables,
    id: i64,
    account_id: i64,
    amount_cents: i64,
    transaction_type: Seq<char>,
    description: Seq<char>,
    transaction_date: Seq<char>,
    category_id: i64,
)
    requires
        t.wf(),
        t.update_transaction(
            id,
            account_id,
            amount_cents,
            transaction_type,
            description,
            transaction_date,
            category_id,
        ) is Ok,
    ensures
        t.update_transaction(
            id,
            account_id,
            amount_cents,
            transaction_type,
            description,
            transaction_date,
            category_id,
        )->Ok_0.wf(),
{
    let u = t.update_transaction(
        id,
        account_id,
        amount_cents,
        transaction_type,
        description,
        transaction_date,
        category_id,
    )->Ok_0;
    if t.has_transaction(id) {
        let k = t.transaction_index(id);
        assert(0 <= k < t.transactions.len() && t.transaction_ids()[k] == id);
        assert(u.transaction_ids() =~= t.transaction_ids());
        assert(u.account_ids() =~= t.account_ids());
        assert(u.category_ids() =~= t.category_ids());
        assert forall|i: int| 0 <= i < u.transactions.len() implies u.has_category(
            (#[trigger] u.transactions[i]).category_id,
        ) && u.has_account(u.transactions[i].account_id) by {
            if i != k {
                assert(u.transactions[i] == t.transactions[i]);
            }
        }
    }
}

/// Removing a transaction keeps the ledger's integrity.
pub proof fn lemma_remove_transaction_wf(t: Tables, id: i64)
    requires
        t.wf(),
    ensures
        t.remove_transaction(id).wf(),
        !t.remove_transaction(id).has_transaction(id),
{
    let u = t.remove_transaction(id);
    if t.has_transaction(id) {
        let k = t.transaction_index(id);
        assert(0 <= k < t.transactions.len() && t.transaction_ids()[k] == id);
        lemma_ids_remove(t.transaction_ids(), t.last_transaction_id, k);
        assert(u.transaction_ids() =~= t.transaction_ids().remove(k));
        assert(u.account_ids() =~= t.account_ids());
        assert(u.category_ids() =~= t.category_ids());
        assert forall|i: int| 0 <= i < u.transactions.len() implies u.has_category(
            (#[trigger] u.transactions[i]).category_id,
        ) && u.has_account(u.transactions[i].account_id) by {
            let a = if i < k { i } else { i + 1 };
            assert(u.transactions[i] == t.transactions[a]);
        }
    }
}

/// The transactions of one account, in table order. An account without
/// transactions, or an id that no account has, gives the empty list.
pub fn get_transactions(store: &Store, account_id: i64) -> (r: Result<
    Vec<Transaction>,
    StoreError,
>)
    ensures
        r matches Ok(rows) && crate::records::transaction_views(rows@)
            == store@.transactions_of(account_id),
{
    let mut rows: Vec<Transaction> = Vec::new();
    let mut i: usize = 0;
    let ghost all = store@.transactions;
    proof {
        reveal(Seq::filter);
        assert(all.take(0) =~= Seq::empty());
    }
    while i < store.transactions.len()
        invariant
            i <= store.transactions.len(),
            all == store@.transactions,
            crate::records::transaction_views(rows@) == rows_of_account(
                all.take(i as int),
                account_id,
            ),
        decreases store.transactions.len() - i,
    {
        let ghost before = crate::records::transaction_views(rows@);
        proof {
            reveal(Seq::filter);
            let next = all.take(i + 1);
            assert(next.drop_last() =~= all.take(i as int));
            assert(next.last() == all[i as int]);
            assert(rows_of_account(next, account_id) == if in_account(account_id)(next.last()) {
                next.drop_last().filter(in_account(account_id)).push(next.last())
            } else {
                next.drop_last().filter(in_account(account_id))
            });
        }
        if store.transactions[i].account_id == account_id {
            rows.push(store.transactions[i].clone());
            assert(crate::records::transaction_views(rows@) =~= before.push(all[i as int]));
        }
        i += 1;
    }
    assert(all.take(i as int) =~= all);
    Ok(rows)
}

/// Creates a transaction with the next id.
pub fn add_transaction(
    store: &mut Store,
    account_id: i64,
    amount_cents: i64,
    transaction_type: String,
    description: String,
    transaction_date: String,
    category_id: i64,
) -> (r: Result<(), StoreError>)
    requires
        old(store)@.wf(),
    ensures
        final(store)@.wf(),
        match old(store)@.insert_transaction(
            account_id,
            amount_cents,
            transaction_type@,
            description@,
            transaction_date@,
            category_id,
        ) {
            Ok(tables) => r is Ok && final(store)@ == tables,
            Err(e) => r == Err::<(), StoreError>(e) && final(store)@ == old(store)@,
        },
{
    if store.last_transaction_id == i64::MAX {
        return Err(StoreError::Full);
    }
    if store.find_account(account_id).is_none() || store.find_category(category_id).is_none() {
        return Err(StoreError::Constraint);
    }
    let id: i64 = store.last_transaction_id + 1;
    proof {
        lemma_insert_transaction_wf(
            store@,
            account_id,
            amount_cents,
            transaction_type@,
            description@,
            transaction_date@,
            category_id,
        );
    }
    let ghost row = TransactionView {
        id,
        account_id,
        amount_cents,
        transaction_type: transaction_type@,
        description: description@,
        transaction_date: transaction_date@,
        category_id,
    };
    store.last_transaction_id = id;
    store.transactions.push(
        Transaction {
            id,
            account_id,
            amount_cents,
            transaction_type,
            description,
            transaction_date,
            category_id,
        },
    );
    assert(store@.transactions =~= old(store)@.transactions.push(row));
    assert(store@.accounts =~= old(store)@.accounts);
    assert(store@.categories =~= old(store)@.categories);
    Ok(())
}

/// Rewrites every field of the transaction `transaction_id` but its id.
/// Where no transaction has that id, nothing changes.
pub fn update_transaction(
    store: &mut Store,
    transaction_id: i64,
    account_id: i64,
    amount_cents: i64,
    transaction_type: String,
    description: String,
    transaction_date: String,
    category_id: i64,
) -> (r: Result<(), StoreError>)
    requires
        old(store)@.wf(),
    ensures
        final(store)@.wf(),
        match old(store)@.update_transaction(
            transaction_id,
            account_id,
            amount_cents,
            transaction_type@,
            description@,
            transaction_date@,
            category_id,
        ) {
            Ok(tables) => r is Ok && final(store)@ == tables,
            Err(e) => r == Err::<(), StoreError>(e) && final(store)@ == old(store)@,
        },
{
    let found = store.find_transaction(transaction_id);
    match found {
        None => Ok(()),
        Some(i) => {
            if store.find_account(account_id).is_none() || store.find_category(
                category_id,
            ).is_none() {
                return Err(StoreError::Constraint);
            }
            proof {
                lemma_index_of_id(store@.transaction_ids(), store@.last_transaction_id, i as int);
                lemma_update_transaction_wf(
                    store@,
                    transaction_id,
                    account_id,
                    amount_cents,
                    transaction_type@,
                    description@,
                    transaction_date@,
                    category_id,
                );
            }
            let ghost row = TransactionView {
                id: transaction_id,
                account_id,
                amount_cents,
                transaction_type: transaction_type@,
                description: description@,
                transaction_date: transaction_date@,
                category_id,
            };
            store.transactions.set(
                i,
                Transaction {
                    id: transaction_id,
                    account_id,
                    amount_cents,
                    transaction_type,
                    description,
                    transaction_date,
                    category_id,
                },
            );
            assert(store@.transactions =~= old(store)@.transactions.update(i as int, row));
            assert(store@.accounts =~= old(store)@.accounts);
            assert(store@.categories =~= old(store)@.categories);
            Ok(())
        },
    }
}

/// Removes the transaction `transaction_id`. Where no transaction has that
/// id, nothing changes.
pub fn delete_transaction(store: &mut Store, transaction_id: i64) -> (r: Result<(), StoreError>)
    requires
        old(store)@.wf(),
    ensures
        final(store)@.wf(),
        r is Ok,
        final(store)@ == old(store)@.remove_transaction(transaction_id),
{
    let found = store.find_transaction(transaction_id);
    match found {
        None => Ok(()),
        Some(i) => {
            proof {
                lemma_index_of_id(store@.transaction_ids(), store@.last_transaction_id, i as int);
                lemma_remove_transaction_wf(store@, transaction_id);
            }
            store.transactions.remove(i);
            assert(store@.transactions =~= old(store)@.transactions.remove(i as int));
            assert(store@.accounts =~= old(store)@.accounts);
            assert(store@.categories =~= old(store)@.categories);
            Ok(())
        },
    }
}

} // verus!

//! Accounts: listing, creating, changing.
//!
//! An account is never removed: it is archived, and stays in its table.

use vstd::prelude::*;
use crate::error::StoreError;
use crate::records::{Account, AccountView, account_views};
use crate::store::{Store, Tables, lemma_ids_push, lemma_index_of_id};

verus! {

impl Tables {
    /// The id that the next account gets.
    pub open spec fn next_account_id(self) -> i64
        recommends
            self.last_account_id < i64::MAX,
    {
        (self.last_account_id + 1) as i64
    }

    /// Effect of creating an account. A new account is not archived.
    pub open spec fn insert_account(self, name: Seq<char>, account_type: Seq<char>) -> Result<
        Tables,
        StoreError,
    > {
        if self.last_account_id == i64::MAX {
            Err(StoreError::Full)
        } else {
            Ok(
                Tables {
                    accounts: self.accounts.push(
                        AccountView {
                            id: self.next_account_id(),
                            name,
                            account_type,
                            archived: false,
                        },
                    ),
                    last_account_id: self.next_account_id(),
                    ..self
                },
            )
        }
    }

    /// Effect of rewriting the account `id`. Where no account has that id,
    /// nothing changes.
    pub open spec fn update_account(
        self,
        id: i64,
        name: Seq<char>,
        account_type: Seq<char>,
        archived: bool,
    ) -> Tables {
        if !self.has_account(id) {
            self
        } else {
            Tables {
                accounts: self.accounts.update(
                    self.account_index(id),
                    AccountView { id, name, account_type, archived },
                ),
                ..self
            }
        }
    }
}

/// Creating an account keeps the ledger's integrity.
pub proof fn lemma_insert_account_wf(t: Tables, name: Seq<char>, account_type: Seq<char>)
    requires
        t.wf(),
        t.insert_account(name, account_type) is Ok,
    ensures
        t.insert_account(name, account_type)->Ok_0.wf(),
{
    let u = t.insert_account(name, account_type)->Ok_0;
    lemma_ids_push(t.account_ids(), t.last_account_id);
    assert(u.account_ids() =~= t.account_ids().push(t.next_account_id()));
    assert(u.category_ids() =~= t.category_ids());
    assert(u.transaction_ids() =~= t.transaction_ids());
    assert forall|i: int| 0 <= i < u.transactions.len() implies u.has_category(
        (#[trigger] u.transactions[i]).category_id,
    ) && u.has_account(u.transactions[i].account_id) by {
        assert(t.has_account(t.transactions[i].account_id));
    }
}

/// Rewriting an account keeps the ledger's integrity.
pub proof fn lemma_update_account_wf(
    t: Tables,
    id: i64,
    name: Seq<char>,
    account_type: Seq<char>,
    archived: bool,
)
    requires
        t.wf(),
    ensures
        t.update_account(id, name, account_type, archived).wf(),
{
    let u = t.update_account(id, name, account_type, archived);
    if t.has_account(id) {
        let k = t.account_index(id);
        assert(0 <= k < t.accounts.len() && t.account_ids()[k] == id);
        assert(u.account_ids() =~= t.account_ids());
        assert(u.category_ids() =~= t.category_ids());
        assert(u.transaction_ids() =~= t.transaction_ids());
    }
}

/// Every account, in table order.
pub fn get_all_accounts(store: &Store) -> (r: Result<Vec<Account>, StoreError>)
    ensures
        r matches Ok(rows) && account_views(rows@) == store@.accounts,
{
    let mut rows: Vec<Account> = Vec::new();
    let mut i: usize = 0;
    while i < store.accounts.len()
        invariant
            i <= store.accounts.len(),
            rows@.len() == i,
            forall|k: int| 0 <= k < i ==> (#[trigger] rows@[k])@ == store.accounts@[k]@,
        decreases store.accounts.len() - i,
    {
        rows.push(store.accounts[i].clone());
        i += 1;
    }
    assert(account_views(rows@) =~= store@.accounts);
    Ok(rows)
}

/// Creates an account with the next id. It starts out not archived.
pub fn add_account(store: &mut Store, name: String, account_type: String) -> (r: Result<
    (),
    StoreError,
>)
    requires
        old(store)@.wf(),
    ensures
        final(store)@.wf(),
        match old(store)@.insert_account(name@, account_type@) {
            Ok(tables) => r is Ok && final(store)@ == tables,
            Err(e) => r == Err::<(), StoreError>(e) && final(store)@ == old(store)@,
        },
{
    if store.last_account_id == i64::MAX {
        return Err(StoreError::Full);
    }
    let id: i64 = store.last_account_id + 1;
    proof {
        lemma_insert_account_wf(store@, name@, account_type@);
    }
    store.last_account_id = id;
    store.accounts.push(Account { id, name, account_type, archived: false });
    assert(store@.accounts =~= old(store)@.accounts.push(
        AccountView { id, name: name@, account_type: account_type@, archived: false },
    ));
    assert(store@.categories =~= old(store)@.categories);
    assert(store@.transactions =~= old(store)@.transactions);
    Ok(())
}

/// Rewrites the name, the type and the archived flag of the account
/// `account_id`. The id stays. Where no account has that id, nothing changes.
pub fn update_account(
    store: &mut Store,
    account_id: i64,
    name: String,
    account_type: String,
    archived: bool,
) -> (r: Result<(), StoreError>)
    requires
        old(store)@.wf(),
    ensures
        final(store)@.wf(),
        r is Ok,
        final(store)@ == old(store)@.update_account(account_id, name@, account_type@, archived),
{
    let found = store.find_account(account_id);
    match found {
        None => Ok(()),
        Some(i) => {
            proof {
                lemma_index_of_id(store@.account_ids(), store@.last_account_id, i as int);
                lemma_update_account_wf(store@, account_id, name@, account_type@, archived);
            }
            store.accounts.set(i, Account { id: account_id, name, account_type, archived });
            assert(store@.accounts =~= old(store)@.accounts.update(
                i as int,
                AccountView { id: account_id, name: name@, account_type: account_type@, archived },
            ));
            assert(store@.categories =~= old(store)@.categories);
            assert(store@.transactions =~= old(store)@.transactions);
            Ok(())
        },
    }
}

} // verus!

//! The three tables and their integrity.
//!
//! [`Tables`] is the mathematical state of the ledger: the rows of each table
//! in table order, and the largest id each table has handed out. [`Store`]
//! holds the same state in memory. Ids are handed out in ascending order and
//! never reused, so table order is ascending id order.

use vstd::prelude::*;
use crate::records::{
    Account, AccountView, Category, CategoryView, Transaction, TransactionView, account_views,
    category_views, transaction_views,
};

verus! {

/// Name of the category that transactions fall back to.
pub open spec fn sentinel_name() -> Seq<char> {
    "Uncategorized"@
}

/// Mathematical state of the ledger.
pub struct Tables {
    pub accounts: Seq<AccountView>,
    pub categories: Seq<CategoryView>,
    pub transactions: Seq<TransactionView>,
    pub last_account_id: i64,
    pub last_category_id: i64,
    pub last_transaction_id: i64,
}

/// The ids of a table lie between 1 and the last id handed out, and ascend.
pub open spec fn ids_ordered(ids: Seq<i64>, last: i64) -> bool {
    &&& 0 <= last
    &&& forall|i: int| 0 <= i < ids.len() ==> 1 <= #[trigger] ids[i] <= last
    &&& forall|i: int, j: int| 0 <= i < j < ids.len() ==> #[trigger] ids[i] < #[trigger] ids[j]
}

impl Tables {
    /// The ledger before anything was written.
    pub open spec fn empty() -> Tables {
        Tables {
            accounts: Seq::empty(),
            categories: Seq::empty(),
            transactions: Seq::empty(),
            last_account_id: 0,
            last_category_id: 0,
            last_transaction_id: 0,
        }
    }

    /// Ids of the accounts, in table order.
    pub open spec fn account_ids(self) -> Seq<i64> {
        Seq::new(self.accounts.len(), |i: int| self.accounts[i].id)
    }

    /// Ids of the categories, in table order.
    pub open spec fn category_ids(self) -> Seq<i64> {
        Seq::new(self.categories.len(), |i: int| self.categories[i].id)
    }

    /// Ids of the transactions, in table order.
    pub open spec fn transaction_ids(self) -> Seq<i64> {
        Seq::new(self.transactions.len(), |i: int| self.transactions[i].id)
    }

    /// An account with this id exists.
    pub open spec fn has_account(self, id: i64) -> bool {
        self.account_ids().contains(id)
    }

    /// A category with this id exists.
    pub open spec fn has_category(self, id: i64) -> bool {
        self.category_ids().contains(id)
    }

    /// A transaction with this id exists.
    pub open spec fn has_transaction(self, id: i64) -> bool {
        self.transaction_ids().contains(id)
    }

    /// Position of the account with this id in its table.
    pub open spec fn account_index(self, id: i64) -> int {
        self.account_ids().index_of(id)
    }

    /// Position of the category with this id in its table.
    pub open spec fn category_index(self, id: i64) -> int {
        self.category_ids().index_of(id)
    }

    /// Position of the transaction with this id in its table.
    pub open spec fn transaction_index(self, id: i64) -> int {
        self.transaction_ids().index_of(id)
    }

    /// The account with this id.
    pub open spec fn account(self, id: i64) -> AccountView
        recommends
            self.has_account(id),
    {
        self.accounts[self.account_index(id)]
    }

    /// The category with this id.
    pub open spec fn category(self, id: i64) -> CategoryView
        recommends
            self.has_category(id),
    {
        self.categories[self.category_index(id)]
    }

    /// The transaction with this id.
    pub open spec fn transaction(self, id: i64) -> TransactionView
        recommends
            self.has_transaction(id),
    {
        self.transactions[self.transaction_index(id)]
    }

    /// The parent of the category with this id; none for a root category and
    /// for an id that no category has.
    pub open spec fn parent_of(self, id: i64) -> Option<i64> {
        if self.has_category(id) {
            self.category(id).parent_id
        } else {
            None
        }
    }

    /// Some category has `id` as its parent.
    pub open spec fn has_child(self, id: i64) -> bool {
        exists|i: int|
            0 <= i < self.categories.len() && (#[trigger] self.categories[i]).parent_id == Some(
                id,
            )
    }

    /// Some category other than `id` itself has `id` as its parent.
    pub open spec fn has_other_child(self, id: i64) -> bool {
        exists|i: int|
            0 <= i < self.categories.len() && (#[trigger] self.categories[i]).parent_id == Some(
                id,
            ) && self.categories[i].id != id
    }

    /// Some transaction is filed under the category `id`.
    pub open spec fn has_transaction_in(self, id: i64) -> bool {
        exists|i: int|
            0 <= i < self.transactions.len() && (#[trigger] self.transactions[i]).category_id
                == id
    }

    /// Every parent reference names an existing category.
    pub open spec fn parents_exist(self) -> bool {
        forall|i: int|
            0 <= i < self.categories.len() ==> (
            (#[trigger] self.categories[i]).parent_id matches Some(p) ==> self.has_category(p))
    }

    /// Every transaction names an existing account and an existing category.
    pub open spec fn references_exist(self) -> bool {
        forall|i: int|
            0 <= i < self.transactions.len() ==> self.has_category(
                (#[trigger] self.transactions[i]).category_id,
            ) && self.has_account(self.transactions[i].account_id)
    }

    /// Integrity of the ledger: in each table the ids are unique and ascend,
    /// and no reference dangles.
    pub open spec fn wf(self) -> bool {
        &&& ids_ordered(self.account_ids(), self.last_account_id)
        &&& ids_ordered(self.category_ids(), self.last_category_id)
        &&& ids_ordered(self.transaction_ids(), self.last_transaction_id)
        &&& self.parents_exist()
        &&& self.references_exist()
    }

    /// Position of the first category named "Uncategorized" among the first
    /// `n` rows, if there is one.
    pub open spec fn sentinel_index_in(self, n: int) -> Option<int>
        decreases n,
    {
        if n <= 0 {
            None
        } else {
            match self.sentinel_index_in(n - 1) {
                Some(i) => Some(i),
                None => if self.categories[n - 1].name == sentinel_name() {
                    Some(n - 1)
                } else {
                    None
                },
            }
        }
    }

    /// Id of the sentinel: the first category, in table order, that is named
    /// "Uncategorized".
    pub open spec fn sentinel(self) -> Option<i64> {
        match self.sentinel_index_in(self.categories.len() as int) {
            Some(i) => Some(self.categories[i].id),
            None => None,
        }
    }
}

/// The ledger held in memory.
pub struct Store {
    pub(crate) accounts: Vec<Account>,
    pub(crate) categories: Vec<Category>,
    pub(crate) transactions: Vec<Transaction>,
    pub(crate) last_account_id: i64,
    pub(crate) last_category_id: i64,
    pub(crate) last_transaction_id: i64,
}

impl View for Store {
    type V = Tables;

    open(crate) spec fn view(&self) -> Tables {
        Tables {
            accounts: account_views(self.accounts@),
            categories: category_views(self.categories@),
            transactions: transaction_views(self.transactions@),
            last_account_id: self.last_account_id,
            last_category_id: self.last_category_id,
            last_transaction_id: self.last_transaction_id,
        }
    }
}

/// What [`Tables::sentinel_index_in`] finds: the least position that holds the name.
pub proof fn lemma_sentinel_index(t: Tables, n: int)
    requires
        0 <= n <= t.categories.len(),
    ensures
        match t.sentinel_index_in(n) {
            Some(i) => 0 <= i < n && t.categories[i].name == sentinel_name() && forall|j: int|
                0 <= j < i ==> (#[trigger] t.categories[j]).name != sentinel_name(),
            None => forall|j: int|
                0 <= j < n ==> (#[trigger] t.categories[j]).name != sentinel_name(),
        },
    decreases n,
{
    if n > 0 {
        lemma_sentinel_index(t, n - 1);
    }
}

/// In an ordered table each id stands at one position only.
pub proof fn lemma_index_of_id(ids: Seq<i64>, last: i64, i: int)
    requires
        ids_ordered(ids, last),
        0 <= i < ids.len(),
    ensures
        ids.contains(ids[i]),
        ids.index_of(ids[i]) == i,
{
    let k = ids.index_of(ids[i]);
    assert(0 <= k < ids.len() && ids[k] == ids[i]);
    if k < i {
        assert(ids[k] < ids[i]);
    } else if i < k {
        assert(ids[i] < ids[k]);
    }
}

/// Handing out the next id keeps a table ordered.
pub proof fn lemma_ids_push(ids: Seq<i64>, last: i64)
    requires
        ids_ordered(ids, last),
        last < i64::MAX,
    ensures
        ids_ordered(ids.push((last + 1) as i64), (last + 1) as i64),
        forall|id: i64| ids.contains(id) ==> #[trigger] ids.push((last + 1) as i64).contains(id),
        ids.push((last + 1) as i64).contains((last + 1) as i64),
        !ids.contains((last + 1) as i64),
{
    let next = (last + 1) as i64;
    let more = ids.push(next);
    assert forall|id: i64| ids.contains(id) implies #[trigger] more.contains(id) by {
        let k = ids.index_of(id);
        assert(more[k] == id);
    }
    assert(more[ids.len() as int] == next);
}

/// Taking a row out keeps a table ordered, and takes out that id only.
pub proof fn lemma_ids_remove(ids: Seq<i64>, last: i64, k: int)
    requires
        ids_ordered(ids, last),
        0 <= k < ids.len(),
    ensures
        ids_ordered(ids.remove(k), last),
        !ids.remove(k).contains(ids[k]),
        forall|id: i64| id != ids[k] ==> (ids.contains(id) <==> #[trigger] ids.remove(k).contains(id)),
{
    let less = ids.remove(k);
    assert forall|i: int| 0 <= i < less.len() implies 1 <= #[trigger] less[i] <= last by {
        if i < k {
            assert(less[i] == ids[i]);
        } else {
            assert(less[i] == ids[i + 1]);
        }
    }
    assert forall|i: int, j: int| 0 <= i < j < less.len() implies #[trigger] less[i]
        < #[trigger] less[j] by {
        let a = if i < k { i } else { i + 1 };
        let b = if j < k { j } else { j + 1 };
        assert(less[i] == ids[a]);
        assert(less[j] == ids[b]);
    }
    if less.contains(ids[k]) {
        let i = less.index_of(ids[k]);
        let a = if i < k { i } else { i + 1 };
        assert(less[i] == ids[a]);
        if a < k {
            assert(ids[a] < ids[k]);
        } else {
            assert(ids[k] < ids[a]);
        }
    }
    assert forall|id: i64| id != ids[k] implies (ids.contains(id) <==> #[trigger] less.contains(
        id,
    )) by {
        if ids.contains(id) {
            let i = ids.index_of(id);
            let a = if i < k { i } else { i - 1 };
            assert(less[a] == id);
        }
        if less.contains(id) {
            let i = less.index_of(id);
            let a = if i < k { i } else { i + 1 };
            assert(ids[a] == id);
        }
    }
}

impl Store {
    /// A ledger with no rows.
    pub fn new() -> (store: Store)
        ensures
            store@ == Tables::empty(),
            store@.wf(),
    {
        let store = Store {
            accounts: Vec::new(),
            categories: Vec::new(),
            transactions: Vec::new(),
            last_account_id: 0,
            last_category_id: 0,
            last_transaction_id: 0,
        };
        assert(store@.accounts =~= Seq::empty());
        assert(store@.categories =~= Seq::empty());
        assert(store@.transactions =~= Seq::empty());
        store
    }

    /// Position of the account with this id.
    pub(crate) fn find_account(&self, id: i64) -> (found: Option<usize>)
        ensures
            match found {
                Some(i) => i < self@.accounts.len() && self@.accounts[i as int].id == id
                    && self@.has_account(id),
                None => !self@.has_account(id),
            },
    {
        let mut i: usize = 0;
        while i < self.accounts.len()
            invariant
                i <= self.accounts.len(),
                forall|k: int| 0 <= k < i ==> #[trigger] self@.account_ids()[k] != id,
            decreases self.accounts.len() - i,
        {
            if self.accounts[i].id == id {
                assert(self@.account_ids()[i as int] == id);
                return Some(i);
            }
            i += 1;
        }
        None
    }

    /// Position of the category with this id.
    pub(crate) fn find_category(&self, id: i64) -> (found: Option<usize>)
        ensures
            match found {
                Some(i) => i < self@.categories.len() && self@.categories[i as int].id == id
                    && self@.has_category(id),
                None => !self@.has_category(id),
            },
    {
        let mut i: usize = 0;
        while i < self.categories.len()
            invariant
                i <= self.categories.len(),
                forall|k: int| 0 <= k < i ==> #[trigger] self@.category_ids()[k] != id,
            decreases self.categories.len() - i,
        {
            if self.categories[i].id == id {
                assert(self@.category_ids()[i as int] == id);
                return Some(i);
            }
            i += 1;
        }
        None
    }

    /// Position of the transaction with this id.
    pub(crate) fn find_transaction(&self, id: i64) -> (found: Option<usize>)
        ensures
            match found {
                Some(i) => i < self@.transactions.len() && self@.transactions[i as int].id == id
                    && self@.has_transaction(id),
                None => !self@.has_transaction(id),
            },
    {
        let mut i: usize = 0;
        while i < self.transactions.len()
            invariant
                i <= self.transactions.len(),
                forall|k: int| 0 <= k < i ==> #[trigger] self@.transaction_ids()[k] != id,
            decreases self.transactions.len() - i,
        {
            if self.transactions[i].id == id {
                assert(self@.transaction_ids()[i as int] == id);
                return Some(i);
            }
            i += 1;
        }
        None
    }

    /// A copy of the ledger as it stands.
    pub fn snapshot(&self) -> (copy: Store)
        ensures
            copy@ == self@,
    {
        let mut accounts: Vec<Account> = Vec::new();
        let mut i: usize = 0;
        while i < self.accounts.len()
            invariant
                i <= self.accounts.len(),
                accounts@.len() == i,
                forall|k: int| 0 <= k < i ==> (#[trigger] accounts@[k])@ == self.accounts@[k]@,
            decreases self.accounts.len() - i,
        {
            accounts.push(self.accounts[i].clone());
            i += 1;
        }
        let mut categories: Vec<Category> = Vec::new();
        let mut j: usize = 0;
        while j < self.categories.len()
            invariant
                j <= self.categories.len(),
                categories@.len() == j,
                forall|k: int|
                    0 <= k < j ==> (#[trigger] categories@[k])@ == self.categories@[k]@,
            decreases self.categories.len() - j,
        {
            categories.push(self.categories[j].clone());
            j += 1;
        }
        let mut transactions: Vec<Transaction> = Vec::new();
        let mut n: usize = 0;
        while n < self.transactions.len()
            invariant
                n <= self.transactions.len(),
                transactions@.len() == n,
                forall|k: int|
                    0 <= k < n ==> (#[trigger] transactions@[k])@ == self.transactions@[k]@,
            decreases self.transactions.len() - n,
        {
            transactions.push(self.transactions[n].clone());
            n += 1;
        }
        let copy = Store {
            accounts,
            categories,
            transactions,
            last_account_id: self.last_account_id,
            last_category_id: self.last_category_id,
            last_transaction_id: self.last_transaction_id,
        };
        assert(copy@.accounts =~= self@.accounts);
        assert(copy@.categories =~= self@.categories);
        assert(copy@.transactions =~= self@.transactions);
        copy
    }
}

} // verus!

//! The commands that deleting a category sends to the storage engine, and an
//! engine in memory that carries them out.
//!
//! A [`Command`] is one statement with its bound values. [`EngineState::respond`]
//! says what a storage engine with foreign keys does on each of them and what
//! it answers; [`Engine`] does exactly that on a [`Store`]. A storage engine
//! on disk is driven with the same commands from outside this crate.

use vstd::prelude::*;
use crate::error::StoreError;
use crate::records::CategoryView;
use crate::store::{Store, Tables, lemma_ids_remove, lemma_index_of_id, sentinel_name};

verus! {

/// One statement for the storage engine.
#[derive(Clone, Copy, Debug, PartialEq, Eq)]
#[allow(inconsistent_fields)]
pub enum Command {
    /// Open a transaction.
    Begin,
    /// The ids of the categories whose parent is `parent_id`.
    SelectChildren { parent_id: i64 },
    /// The parent reference of the category `category_id`: one row, or none
    /// where no category has that id.
    SelectParent { category_id: i64 },
    /// Give every category whose parent is `from` the parent `to`.
    ReparentChildren { from: i64, to: Option<i64> },
    /// The id of the first category named "Uncategorized": one row, or none.
    SelectSentinel,
    /// File every transaction of the category `from` under `to`.
    ReassignTransactions { from: i64, to: i64 },
    /// Remove the row of the category `category_id`.
    DeleteCategory { category_id: i64 },
    /// Make the open transaction permanent.
    Commit,
    /// Undo the open transaction.
    Rollback,
}

impl Command {
    /// The statement, with `?` where a value is bound.
    pub open spec fn sql_text(self) -> Seq<char> {
        match self {
            Command::Begin => "BEGIN"@,
            Command::SelectChildren { .. } => "SELECT id FROM categories WHERE parent_id = ?"@,
            Command::SelectParent { .. } => "SELECT parent_id FROM categories WHERE id = ?"@,
            Command::ReparentChildren { .. } =>
                "UPDATE categories SET parent_id = ? WHERE parent_id = ?"@,
            Command::SelectSentinel =>
                "SELECT id FROM categories WHERE name = 'Uncategorized' ORDER BY id LIMIT 1"@,
            Command::ReassignTransactions { .. } =>
                "UPDATE transactions SET category_id = ? WHERE category_id = ?"@,
            Command::DeleteCategory { .. } => "DELETE FROM categories WHERE id = ?"@,
            Command::Commit => "COMMIT"@,
            Command::Rollback => "ROLLBACK"@,
        }
    }

    /// The values to bind, in the order of the `?` marks. `None` binds NULL.
    pub open spec fn bound_values(self) -> Seq<Option<i64>> {
        match self {
            Command::SelectChildren { parent_id } => seq![Some(parent_id)],
            Command::SelectParent { category_id } => seq![Some(category_id)],
            Command::ReparentChildren { from, to } => seq![to, Some(from)],
            Command::ReassignTransactions { from, to } => seq![Some(to), Some(from)],
            Command::DeleteCategory { category_id } => seq![Some(category_id)],
            _ => Seq::empty(),
        }
    }

    /// The statement to send to the storage engine.
    pub fn sql(&self) -> (text: &'static str)
        ensures
            text@ == self.sql_text(),
    {
        match self {
            Command::Begin => "BEGIN",
            Command::SelectChildren { .. } => "SELECT id FROM categories WHERE parent_id = ?",
            Command::SelectParent { .. } => "SELECT parent_id FROM categories WHERE id = ?",
            Command::ReparentChildren { .. } =>
                "UPDATE categories SET parent_id = ? WHERE parent_id = ?",
            Command::SelectSentinel =>
                "SELECT id FROM categories WHERE name = 'Uncategorized' ORDER BY id LIMIT 1",
            Command::ReassignTransactions { .. } =>
                "UPDATE transactions SET category_id = ? WHERE category_id = ?",
            Command::DeleteCategory { .. } => "DELETE FROM categories WHERE id = ?",
            Command::Commit => "COMMIT",
            Command::Rollback => "ROLLBACK",
        }
    }

    /// The values to bind to the statement.
    pub fn params(&self) -> (values: Vec<Option<i64>>)
        ensures
            values@ == self.bound_values(),
    {
        let mut values: Vec<Option<i64>> = Vec::new();
        match self {
            Command::SelectChildren { parent_id } => {
                values.push(Some(*parent_id));
            },
            Command::SelectParent { category_id } => {
                values.push(Some(*category_id));
            },
            Command::ReparentChildren { from, to } => {
                values.push(*to);
                values.push(Some(*from));
            },
            Command::ReassignTransactions { from, to } => {
                values.push(Some(*to));
                values.push(Some(*from));
            },
            Command::DeleteCategory { category_id } => {
                values.push(Some(*category_id));
            },
            _ => {},
        }
        assert(values@ =~= self.bound_values());
        values
    }
}

/// What the storage engine answers.
#[derive(Debug, PartialEq, Eq)]
pub enum Reply {
    /// The statement was carried out; it has no rows and no count to report.
    Done,
    /// The rows of a query for ids.
    Ids(Vec<i64>),
    /// The rows of a query for parent references.
    Parents(Vec<Option<i64>>),
    /// The number of rows that the statement removed.
    Affected(u64),
    /// The statement failed and changed nothing.
    Failed(StoreError),
}

/// Mathematical value of a [`Reply`].
pub enum ReplyView {
    Done,
    Ids(Seq<i64>),
    Parents(Seq<Option<i64>>),
    Affected(u64),
    Failed(StoreError),
}

impl View for Reply {
    type V = ReplyView;

    open spec fn view(&self) -> ReplyView {
        match self {
            Reply::Done => ReplyView::Done,
            Reply::Ids(rows) => ReplyView::Ids(rows@),
            Reply::Parents(rows) => ReplyView::Parents(rows@),
            Reply::Affected(n) => ReplyView::Affected(*n),
            Reply::Failed(e) => ReplyView::Failed(*e),
        }
    }
}

/// The test that a category has `id` as its parent.
pub open spec fn child_of(id: i64) -> spec_fn(CategoryView) -> bool {
    |c: CategoryView| c.parent_id == Some(id)
}

/// The ids of the rows, in order.
pub open spec fn ids_of(rows: Seq<CategoryView>) -> Seq<i64> {
    Seq::new(rows.len(), |i: int| rows[i].id)
}

impl Tables {
    /// Ids of the categories whose parent is `id`, in table order.
    pub open spec fn children_of(self, id: i64) -> Seq<i64> {
        ids_of(self.categories.filter(child_of(id)))
    }

    /// The rows that a query for the parent of `id` returns.
    pub open spec fn parent_rows(self, id: i64) -> Seq<Option<i64>> {
        if self.has_category(id) {
            seq![self.category(id).parent_id]
        } else {
            Seq::empty()
        }
    }

    /// The rows that a query for the sentinel returns.
    pub open spec fn sentinel_rows(self) -> Seq<i64> {
        match self.sentinel() {
            Some(id) => seq![id],
            None => Seq::empty(),
        }
    }

    /// The tables after every category whose parent is `from` got the parent
    /// `to`. No other field of any row changes.
    pub open spec fn reparent(self, from: i64, to: Option<i64>) -> Tables {
        Tables {
            categories: Seq::new(
                self.categories.len(),
                |i: int|
                    if self.categories[i].parent_id == Some(from) {
                        CategoryView { parent_id: to, ..self.categories[i] }
                    } else {
                        self.categories[i]
                    },
            ),
            ..self
        }
    }

    /// The tables after every transaction of the category `from` was filed
    /// under `to`. No other field of any row changes.
    pub open spec fn reassign(self, from: i64, to: i64) -> Tables {
        Tables {
            transactions: Seq::new(
                self.transactions.len(),
                |i: int|
                    if self.transactions[i].category_id == from {
                        crate::records::TransactionView {
                            category_id: to,
                            ..self.transactions[i]
                        }
                    } else {
                        self.transactions[i]
                    },
            ),
            ..self
        }
    }

    /// The tables without the row of the category `id`.
    pub open spec fn without_category(self, id: i64) -> Tables {
        if self.has_category(id) {
            Tables { categories: self.categories.remove(self.category_index(id)), ..self }
        } else {
            self
        }
    }

    /// Effect of [`Command::ReparentChildren`]: a foreign key rejects a new
    /// parent that does not exist, where there is a child to give it to.
    pub open spec fn reparent_children(self, from: i64, to: Option<i64>) -> Result<
        Tables,
        StoreError,
    > {
        if self.has_child(from) && (to matches Some(p) && !self.has_category(p)) {
            Err(StoreError::Constraint)
        } else {
            Ok(self.reparent(from, to))
        }
    }

    /// Effect of [`Command::ReassignTransactions`]: a foreign key rejects a
    /// target category that does not exist, where there is a transaction to
    /// file under it.
    pub open spec fn reassign_transactions(self, from: i64, to: i64) -> Result<
        Tables,
        StoreError,
    > {
        if self.has_transaction_in(from) && !self.has_category(to) {
            Err(StoreError::Constraint)
        } else {
            Ok(self.reassign(from, to))
        }
    }

    /// Effect of [`Command::DeleteCategory`]: a foreign key rejects the
    /// removal while another category or a transaction points at the row.
    /// Where no category has the id, nothing is removed and nothing fails.
    pub open spec fn remove_category(self, id: i64) -> Result<Tables, StoreError> {
        if !self.has_category(id) {
            Ok(self)
        } else if self.has_other_child(id) || self.has_transaction_in(id) {
            Err(StoreError::Constraint)
        } else {
            Ok(self.without_category(id))
        }
    }
}

impl Store {
    /// The ids of the categories whose parent is `id`.
    pub(crate) fn select_children(&self, id: i64) -> (rows: Vec<i64>)
        ensures
            rows@ == self@.children_of(id),
    {
        let mut rows: Vec<i64> = Vec::new();
        let mut i: usize = 0;
        let ghost all = self@.categories;
        proof {
            reveal(Seq::filter);
            assert(all.take(0) =~= Seq::empty());
            assert(ids_of(all.take(0).filter(child_of(id))) =~= Seq::empty());
        }
        while i < self.categories.len()
            invariant
                i <= self.categories.len(),
                all == self@.categories,
                rows@ == ids_of(all.take(i as int).filter(child_of(id))),
            decreases self.categories.len() - i,
        {
            proof {
                reveal(Seq::filter);
                let next = all.take(i + 1);
                assert(next.drop_last() =~= all.take(i as int));
                assert(next.last() == all[i as int]);
                let kept = next.drop_last().filter(child_of(id));
                assert(next.filter(child_of(id)) == if child_of(id)(next.last()) {
                    kept.push(next.last())
                } else {
                    kept
                });
                assert(ids_of(kept.push(all[i as int])) =~= ids_of(kept).push(all[i as int].id));
            }
            if self.categories[i].parent_id == Some(id) {
                rows.push(self.categories[i].id);
            }
            i += 1;
        }
        assert(all.take(i as int) =~= all);
        rows
    }

    /// The parent reference of the category `id`: one row, or none.
    pub(crate) fn select_parent(&self, id: i64) -> (rows: Vec<Option<i64>>)
        requires
            self@.wf(),
        ensures
            rows@ == self@.parent_rows(id),
    {
        let mut rows: Vec<Option<i64>> = Vec::new();
        match self.find_category(id) {
            Some(i) => {
                proof {
                    lemma_index_of_id(self@.category_ids(), self@.last_category_id, i as int);
                }
                rows.push(self.categories[i].parent_id);
                assert(rows@ =~= seq![self@.category(id).parent_id]);
            },
            None => {
                assert(rows@ =~= Seq::empty());
            },
        }
        rows
    }

    /// The id of the first category named "Uncategorized": one row, or none.
    pub(crate) fn select_sentinel(&self) -> (rows: Vec<i64>)
        ensures
            rows@ == self@.sentinel_rows(),
    {
        let mut rows: Vec<i64> = Vec::new();
        let mut i: usize = 0;
        let name = "Uncategorized".to_owned();
        while i < self.categories.len()
            invariant
                i <= self.categories.len(),
                name@ == sentinel_name(),
                rows@.len() == 0,
                self@.sentinel_index_in(i as int) is None,
            decreases self.categories.len() - i,
        {
            if self.categories[i].name == name {
                assert(self@.sentinel_index_in(i + 1) == Some(i as int));
                proof {
                    lemma_sentinel_prefix(self@, i + 1, self@.categories.len() as int);
                }
                rows.push(self.categories[i].id);
                assert(rows@ =~= seq![self@.categories[i as int].id]);
                return rows;
            }
            assert(self@.sentinel_index_in(i + 1) is None);
            i += 1;
        }
        assert(rows@ =~= Seq::empty());
        rows
    }
}

impl Store {
    /// Whether some category has `id` as its parent.
    pub(crate) fn any_child(&self, id: i64) -> (found: bool)
        ensures
            found == self@.has_child(id),
    {
        let mut i: usize = 0;
        while i < self.categories.len()
            invariant
                i <= self.categories.len(),
                forall|k: int|
                    0 <= k < i ==> (#[trigger] self@.categories[k]).parent_id != Some(id),
            decreases self.categories.len() - i,
        {
            if self.categories[i].parent_id == Some(id) {
                assert(self@.categories[i as int].parent_id == Some(id));
                return true;
            }
            i += 1;
        }
        false
    }

    /// Whether some category other than `id` has `id` as its parent.
    pub(crate) fn any_other_child(&self, id: i64) -> (found: bool)
        ensures
            found == self@.has_other_child(id),
    {
        let mut i: usize = 0;
        while i < self.categories.len()
            invariant
                i <= self.categories.len(),
                forall|k: int|
                    0 <= k < i ==> !((#[trigger] self@.categories[k]).parent_id == Some(id)
                        && self@.categories[k].id != id),
            decreases self.categories.len() - i,
        {
            if self.categories[i].parent_id == Some(id) && self.categories[i].id != id {
                assert(self@.categories[i as int].parent_id == Some(id));
                return true;
            }
            i += 1;
        }
        false
    }

    /// Whether some transaction is filed under the category `id`.
    pub(crate) fn any_transaction_in(&self, id: i64) -> (found: bool)
        ensures
            found == self@.has_transaction_in(id),
    {
        let mut i: usize = 0;
        while i < self.transactions.len()
            invariant
                i <= self.transactions.len(),
                forall|k: int|
                    0 <= k < i ==> (#[trigger] self@.transactions[k]).category_id != id,
            decreases self.transactions.len() - i,
        {
            if self.transactions[i].category_id == id {
                assert(self@.transactions[i as int].category_id == id);
                return true;
            }
            i += 1;
        }
        false
    }
}

impl Store {
    /// Gives every category whose parent is `from` the parent `to`.
    pub(crate) fn reparent_children(&mut self, from: i64, to: Option<i64>) -> (r: Result<
        (),
        StoreError,
    >)
        requires
            old(self)@.wf(),
        ensures
            final(self)@.wf(),
            match old(self)@.reparent_children(from, to) {
                Ok(tables) => r is Ok && final(self)@ == tables,
                Err(e) => r == Err::<(), StoreError>(e) && final(self)@ == old(self)@,
            },
    {
        if let Some(p) = to {
            if self.find_category(p).is_none() {
                if self.any_child(from) {
                    return Err(StoreError::Constraint);
                }
                proof {
                    lemma_reparent_wf(self@, from, to);
                }
                return Ok(());
            }
        }
        let ghost before = self@;
        proof {
            lemma_reparent_wf(before, from, to);
        }
        let mut i: usize = 0;
        while i < self.categories.len()
            invariant
                i <= self.categories.len(),
                self@.categories.len() == before.categories.len(),
                self@.accounts == before.accounts,
                self@.transactions == before.transactions,
                self@.last_account_id == before.last_account_id,
                self@.last_category_id == before.last_category_id,
                self@.last_transaction_id == before.last_transaction_id,
                forall|k: int|
                    0 <= k < i ==> #[trigger] self@.categories[k] == before.reparent(
                        from,
                        to,
                    ).categories[k],
                forall|k: int|
                    i <= k < before.categories.len() ==> #[trigger] self@.categories[k]
                        == before.categories[k],
            decreases self.categories.len() - i,
        {
            let ghost rows = self@.categories;
            if self.categories[i].parent_id == Some(from) {
                self.categories[i].parent_id = to;
                assert(self@.categories =~= rows.update(
                    i as int,
                    CategoryView { parent_id: to, ..rows[i as int] },
                ));
                assert(self@.accounts =~= before.accounts);
                assert(self@.transactions =~= before.transactions);
            }
            i += 1;
        }
        assert(self@.categories =~= before.reparent(from, to).categories);
        Ok(())
    }

    /// Files every transaction of the category `from` under `to`.
    pub(crate) fn reassign_transactions(&mut self, from: i64, to: i64) -> (r: Result<
        (),
        StoreError,
    >)
        requires
            old(self)@.wf(),
        ensures
            final(self)@.wf(),
            match old(self)@.reassign_transactions(from, to) {
                Ok(tables) => r is Ok && final(self)@ == tables,
                Err(e) => r == Err::<(), StoreError>(e) && final(self)@ == old(self)@,
            },
    {
        if self.find_category(to).is_none() {
            if self.any_transaction_in(from) {
                return Err(StoreError::Constraint);
            }
            proof {
                lemma_reassign_wf(self@, from, to);
            }
            return Ok(());
        }
        let ghost before = self@;
        proof {
            lemma_reassign_wf(before, from, to);
        }
        let mut i: usize = 0;
        while i < self.transactions.len()
            invariant
                i <= self.transactions.len(),
                self@.transactions.len() == before.transactions.len(),
                self@.accounts == before.accounts,
                self@.categories == before.categories,
                self@.last_account_id == before.last_account_id,
                self@.last_category_id == before.last_category_id,
                self@.last_transaction_id == before.last_transaction_id,
                forall|k: int|
                    0 <= k < i ==> #[trigger] self@.transactions[k] == before.reassign(
                        from,
                        to,
                    ).transactions[k],
                forall|k: int|
                    i <= k < before.transactions.len() ==> #[trigger] self@.transactions[k]
                        == before.transactions[k],
            decreases self.transactions.len() - i,
        {
            let ghost rows = self@.transactions;
            if self.transactions[i].category_id == from {
                self.transactions[i].category_id = to;
                assert(self@.transactions =~= rows.update(
                    i as int,
                    crate::records::TransactionView { category_id: to, ..rows[i as int] },
                ));
                assert(self@.accounts =~= before.accounts);
                assert(self@.categories =~= before.categories);
            }
            i += 1;
        }
        assert(self@.transactions =~= before.reassign(from, to).transactions);
        Ok(())
    }

    /// Removes the row of the category `id`, and says how many rows went.
    pub(crate) fn remove_category(&mut self, id: i64) -> (r: Result<u64, StoreError>)
        requires
            old(self)@.wf(),
        ensures
            final(self)@.wf(),
            match old(self)@.remove_category(id) {
                Ok(tables) => final(self)@ == tables && r == Ok::<u64, StoreError>(
                    if old(self)@.has_category(id) {
                        1u64
                    } else {
                        0u64
                    },
                ),
                Err(e) => r == Err::<u64, StoreError>(e) && final(self)@ == old(self)@,
            },
    {
        match self.find_category(id) {
            None => Ok(0),
            Some(i) => {
                if self.any_other_child(id) || self.any_transaction_in(id) {
                    return Err(StoreError::Constraint);
                }
                proof {
                    lemma_index_of_id(self@.category_ids(), self@.last_category_id, i as int);
                    lemma_remove_category_wf(self@, id);
                }
                self.categories.remove(i);
                assert(self@.categories =~= old(self)@.categories.remove(i as int));
                assert(self@.accounts =~= old(self)@.accounts);
                assert(self@.transactions =~= old(self)@.transactions);
                Ok(1)
            },
        }
    }
}

/// Giving children a new parent that exists keeps the ledger's integrity.
pub proof fn lemma_reparent_wf(t: Tables, from: i64, to: Option<i64>)
    requires
        t.wf(),
        t.reparent_children(from, to) is Ok,
    ensures
        t.reparent(from, to).wf(),
        t.reparent(from, to).category_ids() == t.category_ids(),
        !t.has_child(from) ==> t.reparent(from, to) == t,
{
    let u = t.reparent(from, to);
    assert(u.category_ids() =~= t.category_ids());
    assert(u.account_ids() =~= t.account_ids());
    assert(u.transaction_ids() =~= t.transaction_ids());
    assert forall|i: int| 0 <= i < u.categories.len() implies (
    (#[trigger] u.categories[i]).parent_id matches Some(p) ==> u.has_category(p)) by {
        if t.categories[i].parent_id == Some(from) {
            assert(t.has_child(from));
        } else {
            assert(u.categories[i] == t.categories[i]);
        }
    }
    assert forall|i: int| 0 <= i < u.transactions.len() implies u.has_category(
        (#[trigger] u.transactions[i]).category_id,
    ) && u.has_account(u.transactions[i].account_id) by {
        assert(t.has_category(t.transactions[i].category_id));
    }
    if !t.has_child(from) {
        assert(u.categories =~= t.categories);
    }
}

/// Filing transactions under a category that exists keeps the ledger's integrity.
pub proof fn lemma_reassign_wf(t: Tables, from: i64, to: i64)
    requires
        t.wf(),
        t.reassign_transactions(from, to) is Ok,
    ensures
        t.reassign(from, to).wf(),
        !t.has_transaction_in(from) ==> t.reassign(from, to) == t,
        from != to ==> !t.reassign(from, to).has_transaction_in(from),
{
    let u = t.reassign(from, to);
    assert(u.category_ids() =~= t.category_ids());
    assert(u.account_ids() =~= t.account_ids());
    assert(u.transaction_ids() =~= t.transaction_ids());
    assert forall|i: int| 0 <= i < u.transactions.len() implies u.has_category(
        (#[trigger] u.transactions[i]).category_id,
    ) && u.has_account(u.transactions[i].account_id) by {
        assert(t.has_category(t.transactions[i].category_id));
        assert(t.has_account(t.transactions[i].account_id));
        if t.transactions[i].category_id == from {
            assert(t.has_transaction_in(from));
        }
    }
    if !t.has_transaction_in(from) {
        assert(u.transactions =~= t.transactions);
    }
}

/// Removing a category that nothing points at keeps the ledger's integrity.
pub proof fn lemma_remove_category_wf(t: Tables, id: i64)
    requires
        t.wf(),
        t.remove_category(id) is Ok,
    ensures
        t.without_category(id).wf(),
        !t.without_category(id).has_category(id),
        forall|other: i64|
            other != id ==> (t.has_category(other) <==> #[trigger] t.without_category(
                id,
            ).has_category(other)),
{
    let u = t.without_category(id);
    if t.has_category(id) {
        let k = t.category_index(id);
        assert(0 <= k < t.categories.len() && t.category_ids()[k] == id);
        lemma_ids_remove(t.category_ids(), t.last_category_id, k);
        assert(u.category_ids() =~= t.category_ids().remove(k));
        assert(u.account_ids() =~= t.account_ids());
        assert(u.transaction_ids() =~= t.transaction_ids());
        assert forall|i: int| 0 <= i < u.categories.len() implies (
        (#[trigger] u.categories[i]).parent_id matches Some(p) ==> u.has_category(p)) by {
            let a = if i < k { i } else { i + 1 };
            assert(u.categories[i] == t.categories[a]);
            assert(t.category_ids()[a] != id) by {
                lemma_index_of_id(t.category_ids(), t.last_category_id, a);
            }
            if let Some(p) = t.categories[a].parent_id {
                assert(t.has_category(p));
                if p == id {
                    assert(t.has_other_child(id));
                }
            }
        }
        assert forall|i: int| 0 <= i < u.transactions.len() implies u.has_category(
            (#[trigger] u.transactions[i]).category_id,
        ) && u.has_account(u.transactions[i].account_id) by {
            assert(t.has_category(t.transactions[i].category_id));
            if t.transactions[i].category_id == id {
                assert(t.has_transaction_in(id));
            }
        }
    }
}

/// Once a prefix of the table holds the name, longer prefixes find the same row.
pub proof fn lemma_sentinel_prefix(t: Tables, n: int, m: int)
    requires
        0 <= n <= m,
        t.sentinel_index_in(n) is Some,
    ensures
        t.sentinel_index_in(m) == t.sentinel_index_in(n),
    decreases m - n,
{
    if n < m {
        lemma_sentinel_prefix(t, n, m - 1);
    }
}

/// Mathematical state of an [`Engine`]: the tables as they stand, and the
/// tables as they stood when the open transaction began.
pub struct EngineState {
    pub live: Tables,
    pub saved: Option<Tables>,
}

impl EngineState {
    /// Both sets of tables keep the ledger's integrity.
    pub open spec fn wf(self) -> bool {
        &&& self.live.wf()
        &&& self.saved matches Some(tables) ==> tables.wf()
    }

    /// The state after a statement that changed the tables to `tables`, with
    /// the reply `reply`.
    pub open spec fn with_live(self, tables: Tables, reply: ReplyView) -> (EngineState, ReplyView) {
        (EngineState { live: tables, ..self }, reply)
    }

    /// What a storage engine does on `command`, and what it answers. A
    /// statement that fails changes nothing.
    pub open spec fn respond(self, command: Command) -> (EngineState, ReplyView) {
        match command {
            Command::Begin => match self.saved {
                Some(_) => (self, ReplyView::Failed(StoreError::TransactionState)),
                None => (EngineState { saved: Some(self.live), ..self }, ReplyView::Done),
            },
            Command::Commit => match self.saved {
                Some(_) => (EngineState { saved: None, ..self }, ReplyView::Done),
                None => (self, ReplyView::Failed(StoreError::TransactionState)),
            },
            Command::Rollback => match self.saved {
                Some(tables) => (EngineState { live: tables, saved: None }, ReplyView::Done),
                None => (self, ReplyView::Failed(StoreError::TransactionState)),
            },
            Command::SelectChildren { parent_id } => (
                self,
                ReplyView::Ids(self.live.children_of(parent_id)),
            ),
            Command::SelectParent { category_id } => (
                self,
                ReplyView::Parents(self.live.parent_rows(category_id)),
            ),
            Command::SelectSentinel => (self, ReplyView::Ids(self.live.sentinel_rows())),
            Command::ReparentChildren { from, to } => match self.live.reparent_children(from, to) {
                Ok(tables) => self.with_live(tables, ReplyView::Done),
                Err(e) => (self, ReplyView::Failed(e)),
            },
            Command::ReassignTransactions { from, to } => match self.live.reassign_transactions(
                from,
                to,
            ) {
                Ok(tables) => self.with_live(tables, ReplyView::Done),
                Err(e) => (self, ReplyView::Failed(e)),
            },
            Command::DeleteCategory { category_id } => match self.live.remove_category(
                category_id,
            ) {
                Ok(tables) => self.with_live(
                    tables,
                    ReplyView::Affected(
                        if self.live.has_category(category_id) {
                            1u64
                        } else {
                            0u64
                        },
                    ),
                ),
                Err(e) => (self, ReplyView::Failed(e)),
            },
        }
    }
}

/// A storage engine in memory: a ledger, and transactions over it.
pub struct Engine {
    pub(crate) live: Store,
    pub(crate) saved: Option<Store>,
}

impl View for Engine {
    type V = EngineState;

    open(crate) spec fn view(&self) -> EngineState {
        EngineState {
            live: self.live@,
            saved: match self.saved {
                Some(store) => Some(store@),
                None => None,
            },
        }
    }
}

impl Engine {
    /// An engine over `store`, with no transaction open.
    pub fn open(store: Store) -> (engine: Engine)
        ensures
            engine@ == (EngineState { live: store@, saved: None }),
    {
        Engine { live: store, saved: None }
    }

    /// Ends the engine and hands out its ledger. A transaction that is still
    /// open is undone.
    pub fn close(self) -> (store: Store)
        ensures
            store@ == match self@.saved {
                Some(tables) => tables,
                None => self@.live,
            },
    {
        match self.saved {
            Some(store) => store,
            None => self.live,
        }
    }

    /// The ledger as it stands.
    pub fn store(&self) -> (store: &Store)
        ensures
            store@ == self@.live,
    {
        &self.live
    }

    /// Carries out one command.
    pub fn execute(&mut self, command: Command) -> (reply: Reply)
        requires
            old(self)@.wf(),
        ensures
            final(self)@.wf(),
            (final(self)@, reply@) == old(self)@.respond(command),
    {
        match command {
            Command::Begin => {
                if self.saved.is_some() {
                    return Reply::Failed(StoreError::TransactionState);
                }
                let copy = self.live.snapshot();
                self.saved = Some(copy);
                Reply::Done
            },
            Command::Commit => {
                if self.saved.is_none() {
                    return Reply::Failed(StoreError::TransactionState);
                }
                self.saved = None;
                Reply::Done
            },
            Command::Rollback => {
                match self.saved.take() {
                    Some(store) => {
                        self.live = store;
                        Reply::Done
                    },
                    None => Reply::Failed(StoreError::TransactionState),
                }
            },
            Command::SelectChildren { parent_id } => Reply::Ids(
                self.live.select_children(parent_id),
            ),
            Command::SelectParent { category_id } => Reply::Parents(
                self.live.select_parent(category_id),
            ),
            Command::SelectSentinel => Reply::Ids(self.live.select_sentinel()),
            Command::ReparentChildren { from, to } => match self.live.reparent_children(from, to) {
                Ok(()) => Reply::Done,
                Err(e) => Reply::Failed(e),
            },
            Command::ReassignTransactions { from, to } => match self.live.reassign_transactions(
                from,
                to,
            ) {
                Ok(()) => Reply::Done,
                Err(e) => Reply::Failed(e),
            },
            Command::DeleteCategory { category_id } => match self.live.remove_category(
                category_id,
            ) {
                Ok(n) => Reply::Affected(n),
                Err(e) => Reply::Failed(e),
            },
        }
    }
}

} // verus!

//! Categories: listing, creating, changing, deleting.
//!
//! A category may name another category as its parent. Nothing keeps a
//! category from being made its own ancestor; every parent reference names an
//! existing category, and that is all that is enforced. A category is
//! deleted by [`delete_category`] only, which moves its children and its
//! transactions out of the way first.

use vstd::prelude::*;
use crate::error::StoreError;
use crate::records::{Category, CategoryView, category_views};
use crate::deletion::{DeletePlan, Step, lemma_deletion_step, on_track, steps_left};
use crate::engine::Engine;
use crate::store::{Store, Tables, lemma_ids_push, lemma_index_of_id};

verus! {

impl Tables {
    /// The id that the next category gets.
    pub open spec fn next_category_id(self) -> i64
        recommends
            self.last_category_id < i64::MAX,
    {
        (self.last_category_id + 1) as i64
    }

    /// Effect of creating a category. The table is full once the largest id
    /// has been handed out. A parent must exist, or be the new row itself.
    pub open spec fn insert_category(self, name: Seq<char>, parent_id: Option<i64>) -> Result<
        Tables,
        StoreError,
    > {
        if self.last_category_id == i64::MAX {
            Err(StoreError::Full)
        } else if parent_id matches Some(p) && !self.has_category(p) && p
            != self.next_category_id() {
            Err(StoreError::Constraint)
        } else {
            Ok(
                Tables {
                    categories: self.categories.push(
                        CategoryView { id: self.next_category_id(), name, parent_id },
                    ),
                    last_category_id: self.next_category_id(),
                    ..self
                },
            )
        }
    }

    /// Effect of rewriting the name and parent of the category `id`. Where no
    /// category has that id, nothing changes and nothing fails.
    pub open spec fn update_category(
        self,
        id: i64,
        name: Seq<char>,
        parent_id: Option<i64>,
    ) -> Result<Tables, StoreError> {
        if !self.has_category(id) {
            Ok(self)
        } else if parent_id matches Some(p) && !self.has_category(p) {
            Err(StoreError::Constraint)
        } else {
            Ok(
                Tables {
                    categories: self.categories.update(
                        self.category_index(id),
                        CategoryView { id, name, parent_id },
                    ),
                    ..self
                },
            )
        }
    }
}

impl Tables {
    /// Effect of deleting the category `id`, all or nothing.
    ///
    /// The children of `id` get its parent, the transactions of `id` go to the
    /// sentinel, and the row of `id` goes. Nothing else changes. The deletion
    /// fails, in this order: where there is no sentinel; where `id` is the
    /// sentinel; where no category has the id; where `id` is its own parent
    /// and has other children, which would be left pointing at it.
    pub open spec fn delete_category(self, id: i64) -> Result<Tables, StoreError> {
        match self.sentinel() {
            None => Err(StoreError::SentinelMissing),
            Some(fallback) => if fallback == id {
                Err(StoreError::SentinelProtected)
            } else if !self.has_category(id) {
                Err(StoreError::NotFound)
            } else if self.parent_of(id) == Some(id) && self.has_other_child(id) {
                Err(StoreError::Constraint)
            } else {
                Ok(
                    self.reparent(id, self.parent_of(id)).reassign(id, fallback).without_category(
                        id,
                    ),
                )
            },
        }
    }
}

/// Creating a category keeps the ledger's integrity.
pub proof fn lemma_insert_category_wf(t: Tables, name: Seq<char>, parent_id: Option<i64>)
    requires
        t.wf(),
        t.insert_category(name, parent_id) is Ok,
    ensures
        t.insert_category(name, parent_id)->Ok_0.wf(),
{
    let u = t.insert_category(name, parent_id)->Ok_0;
    let n = t.categories.len() as int;
    lemma_ids_push(t.category_ids(), t.last_category_id);
    assert(u.category_ids() =~= t.category_ids().push(t.next_category_id()));
    assert(u.account_ids() =~= t.account_ids());
    assert(u.transaction_ids() =~= t.transaction_ids());
    assert forall|i: int| 0 <= i < u.categories.len() implies (
    (#[trigger] u.categories[i]).parent_id matches Some(p) ==> u.has_category(p)) by {
        if i < n {
            assert(u.categories[i] == t.categories[i]);
        }
    }
    assert forall|i: int| 0 <= i < u.transactions.len() implies u.has_category(
        (#[trigger] u.transactions[i]).category_id,
    ) && u.has_account(u.transactions[i].account_id) by {
        assert(t.has_category(t.transactions[i].category_id));
    }
}

/// Rewriting a category keeps the ledger's integrity.
pub proof fn lemma_update_category_wf(
    t: Tables,
    id: i64,
    name: Seq<char>,
    parent_id: Option<i64>,
)
    requires
        t.wf(),
        t.update_category(id, name, parent_id) is Ok,
    ensures
        t.update_category(id, name, parent_id)->Ok_0.wf(),
{
    let u = t.update_category(id, name, parent_id)->Ok_0;
    if t.has_category(id) {
        let k = t.category_index(id);
        assert(0 <= k < t.categories.len() && t.category_ids()[k] == id);
        assert(u.category_ids() =~= t.category_ids());
        assert(u.account_ids() =~= t.account_ids());
        assert(u.transaction_ids() =~= t.transaction_ids());
        assert forall|i: int| 0 <= i < u.categories.len() implies (
        (#[trigger] u.categories[i]).parent_id matches Some(p) ==> u.has_category(p)) by {
            if i != k {
                assert(u.categories[i] == t.categories[i]);
            }
        }
        assert forall|i: int| 0 <= i < u.transactions.len() implies u.has_category(
            (#[trigger] u.transactions[i]).category_id,
        ) && u.has_account(u.transactions[i].account_id) by {
            assert(t.has_category(t.transactions[i].category_id));
        }
    }
}

/// Every category, in table order.
pub fn get_all_categories(store: &Store) -> (r: Result<Vec<Category>, StoreError>)
    ensures
        r matches Ok(rows) && category_views(rows@) == store@.categories,
{
    let mut rows: Vec<Category> = Vec::new();
    let mut i: usize = 0;
    while i < store.categories.len()
        invariant
            i <= store.categories.len(),
            rows@.len() == i,
            forall|k: int| 0 <= k < i ==> (#[trigger] rows@[k])@ == store.categories@[k]@,
        decreases store.categories.len() - i,
    {
        rows.push(store.categories[i].clone());
        i += 1;
    }
    assert(category_views(rows@) =~= store@.categories);
    Ok(rows)
}

/// Creates a category with the next id.
pub fn add_category(store: &mut Store, name: String, parent_id: Option<i64>) -> (r: Result<
    (),
    StoreError,
>)
    requires
        old(store)@.wf(),
    ensures
        final(store)@.wf(),
        match old(store)@.insert_category(name@, parent_id) {
            Ok(tables) => r is Ok && final(store)@ == tables,
            Err(e) => r == Err::<(), StoreError>(e) && final(store)@ == old(store)@,
        },
{
    if store.last_category_id == i64::MAX {
        return Err(StoreError::Full);
    }
    let id: i64 = store.last_category_id + 1;
    if let Some(p) = parent_id {
        if p != id && store.find_category(p).is_none() {
            return Err(StoreError::Constraint);
        }
    }
    proof {
        lemma_insert_category_wf(store@, name@, parent_id);
    }
    store.last_category_id = id;
    store.categories.push(Category { id, name, parent_id });
    assert(store@.categories =~= old(store)@.categories.push(
        CategoryView { id, name: name@, parent_id },
    ));
    assert(store@.accounts =~= old(store)@.accounts);
    assert(store@.transactions =~= old(store)@.transactions);
    Ok(())
}

/// Rewrites the name and the parent of the category `category_id`. The id
/// stays. Where no category has that id, nothing changes.
pub fn update_category(
    store: &mut Store,
    category_id: i64,
    name: String,
    parent_id: Option<i64>,
) -> (r: Result<(), StoreError>)
    requires
        old(store)@.wf(),
    ensures
        final(store)@.wf(),
        match old(store)@.update_category(category_id, name@, parent_id) {
            Ok(tables) => r is Ok && final(store)@ == tables,
            Err(e) => r == Err::<(), StoreError>(e) && final(store)@ == old(store)@,
        },
{
    let found = store.find_category(category_id);
    match found {
        None => Ok(()),
        Some(i) => {
            if let Some(p) = parent_id {
                if store.find_category(p).is_none() {
                    return Err(StoreError::Constraint);
                }
            }
            proof {
                lemma_index_of_id(store@.category_ids(), store@.last_category_id, i as int);
                lemma_update_category_wf(store@, category_id, name@, parent_id);
            }
            store.categories.set(i, Category { id: category_id, name, parent_id });
            assert(store@.categories =~= old(store)@.categories.update(
                i as int,
                CategoryView { id: category_id, name: name@, parent_id },
            ));
            assert(store@.accounts =~= old(store)@.accounts);
            assert(store@.transactions =~= old(store)@.transactions);
            Ok(())
        },
    }
}

/// Deletes the category `category_id`, all or nothing.
///
/// Its children inherit its parent, and become root categories where it has
/// none; its transactions go to the "Uncategorized" category; its row is
/// removed; no other row changes. The "Uncategorized" category itself cannot
/// be deleted, and an id that no category has is a failure. On any failure
/// the ledger is as it was.
pub fn delete_category(store: &mut Store, category_id: i64) -> (r: Result<(), StoreError>)
    requires
        old(store)@.wf(),
    ensures
        final(store)@.wf(),
        match old(store)@.delete_category(category_id) {
            Ok(tables) => r is Ok && final(store)@ == tables,
            Err(e) => r == Err::<(), StoreError>(e) && final(store)@ == old(store)@,
        },
{
    let ghost start = store@;
    let mut held = Store::new();
    core::mem::swap(store, &mut held);
    let mut engine = Engine::open(held);
    let mut step = DeletePlan::start(category_id);
    loop
        invariant
            start == old(store)@,
            start.wf(),
            engine@.wf(),
            on_track(start, category_id, engine@, step),
        decreases steps_left(step),
    {
        match step {
            Step::Finish(result) => {
                *store = engine.close();
                return result;
            },
            Step::Run(plan, command) => {
                proof {
                    lemma_deletion_step(start, category_id, engine@, plan, command);
                }
                let reply = engine.execute(command);
                step = plan.resume(reply);
            },
        }
    }
}

} // verus!

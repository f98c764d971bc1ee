//! What deleting a category guarantees.
//!
//! Each law is stated over [`Tables::delete_category`], the effect that
//! [`crate::categories::delete_category`] has on a ledger, and holds of every
//! ledger that keeps its integrity.

use vstd::prelude::*;
use crate::deletion::{lemma_deletion_facts, lemma_sentinel_same};
use crate::engine::lemma_remove_category_wf;
use crate::error::StoreError;
use crate::records::{CategoryView, TransactionView};
use crate::store::{Tables, lemma_index_of_id, lemma_sentinel_index, sentinel_name};

verus! {

/// The row that a category other than the deleted one has after the
/// deletion of `deleted`: a child of `deleted` gets the parent `inherited`.
pub open spec fn spliced(row: CategoryView, deleted: i64, inherited: Option<i64>) -> CategoryView {
    if row.parent_id == Some(deleted) {
        CategoryView { parent_id: inherited, ..row }
    } else {
        row
    }
}

/// The row that a transaction has after the deletion of the category
/// `deleted`: a transaction of `deleted` goes to `fallback`.
pub open spec fn refiled(row: TransactionView, deleted: i64, fallback: i64) -> TransactionView {
    if row.category_id == deleted {
        TransactionView { category_id: fallback, ..row }
    } else {
        row
    }
}

/// A successful deletion keeps the ledger's integrity, keeps the sentinel,
/// takes out the deleted row and no other, and leaves accounts alone.
pub proof fn deletion_keeps_integrity(t: Tables, c: i64, u: Tables)
    requires
        t.wf(),
        t.delete_category(c) == Ok::<Tables, StoreError>(u),
    ensures
        u.wf(),
        u.sentinel() == t.sentinel(),
        u.sentinel() is Some,
        t.has_category(c),
        !u.has_category(c),
        forall|x: i64| x != c ==> (t.has_category(x) <==> #[trigger] u.has_category(x)),
        u.accounts == t.accounts,
        u.last_account_id == t.last_account_id,
        u.last_category_id == t.last_category_id,
        u.last_transaction_id == t.last_transaction_id,
{
    lemma_deletion_facts(t, c);
    let fallback = t.sentinel()->Some_0;
    let moved = t.reparent(c, t.parent_of(c)).reassign(c, fallback);
    lemma_remove_category_wf(moved, c);
    assert(moved.category_ids() =~= t.category_ids());
    let k = t.category_index(c);
    assert(0 <= k < t.categories.len() && t.category_ids()[k] == c);
    lemma_sentinel_same(t, moved, t.categories.len() as int);
    assert(moved.categories[k].id == c);
    lemma_sentinel_without(moved, k);
    assert(moved.category_index(c) == k);
}

/// After a deletion every other category is still there, under its id and
/// name; it has the deleted category's parent where the deleted category was
/// its parent, and its own parent otherwise.
pub proof fn every_other_category_is_spliced(t: Tables, c: i64, u: Tables, x: i64)
    requires
        t.wf(),
        t.delete_category(c) == Ok::<Tables, StoreError>(u),
        t.has_category(x),
        x != c,
    ensures
        u.has_category(x),
        u.category(x) == spliced(t.category(x), c, t.parent_of(c)),
{
    deletion_keeps_integrity(t, c, u);
    lemma_deletion_facts(t, c);
    let fallback = t.sentinel()->Some_0;
    let moved = t.reparent(c, t.parent_of(c)).reassign(c, fallback);
    assert(moved.category_ids() =~= t.category_ids());
    let k = t.category_index(c);
    let a = t.category_index(x);
    assert(0 <= k < t.categories.len() && t.category_ids()[k] == c);
    assert(0 <= a < t.categories.len() && t.category_ids()[a] == x);
    let at = if a < k {
        a
    } else {
        a - 1
    };
    assert(u.categories[at] == moved.categories[a]);
    assert(u.category_ids()[at] == x);
    lemma_index_of_id(u.category_ids(), u.last_category_id, at);
}

/// After a deletion every transaction is still there, unchanged but for its
/// category: a transaction of the deleted category is filed under the
/// sentinel.
pub proof fn every_transaction_is_refiled(t: Tables, c: i64, u: Tables, x: i64)
    requires
        t.wf(),
        t.delete_category(c) == Ok::<Tables, StoreError>(u),
        t.has_transaction(x),
    ensures
        t.sentinel() is Some,
        u.has_transaction(x),
        u.transaction(x) == refiled(t.transaction(x), c, t.sentinel()->Some_0),
        u.transactions.len() == t.transactions.len(),
        forall|i: int|
            0 <= i < t.transactions.len() ==> #[trigger] u.transactions[i] == refiled(
                t.transactions[i],
                c,
                t.sentinel()->Some_0,
            ),
{
    deletion_keeps_integrity(t, c, u);
    assert(u.transaction_ids() =~= t.transaction_ids());
}

/// Orphan promotion: after the deletion of `c`, every child of `c` has the
/// parent that `c` had, and `c` is gone.
pub proof fn children_inherit_the_parent(t: Tables, c: i64, u: Tables, child: i64)
    requires
        t.wf(),
        t.delete_category(c) == Ok::<Tables, StoreError>(u),
        t.has_category(child),
        child != c,
        t.parent_of(child) == Some(c),
    ensures
        u.has_category(child),
        u.parent_of(child) == t.parent_of(c),
        !u.has_category(c),
{
    deletion_keeps_integrity(t, c, u);
    every_other_category_is_spliced(t, c, u, child);
}

/// After the deletion of a root category its children are root categories:
/// they point at no sibling and at no other root.
pub proof fn children_of_a_root_become_roots(t: Tables, c: i64, u: Tables, child: i64)
    requires
        t.wf(),
        t.delete_category(c) == Ok::<Tables, StoreError>(u),
        t.parent_of(c) is None,
        t.has_category(child),
        child != c,
        t.parent_of(child) == Some(c),
    ensures
        u.has_category(child),
        u.parent_of(child) is None,
{
    children_inherit_the_parent(t, c, u, child);
}

/// The rest of the forest stays as it is: a category that is neither `c`
/// nor a child of `c` keeps its row, so a grandchild of `c` still points at
/// the child of `c` that it pointed at, and that child has moved up by one.
pub proof fn the_rest_of_the_chain_stays(t: Tables, c: i64, u: Tables, other: i64)
    requires
        t.wf(),
        t.delete_category(c) == Ok::<Tables, StoreError>(u),
        t.has_category(other),
        other != c,
        t.parent_of(other) != Some(c),
    ensures
        u.has_category(other),
        u.category(other) == t.category(other),
        u.parent_of(other) matches Some(p) ==> u.has_category(p),
{
    deletion_keeps_integrity(t, c, u);
    every_other_category_is_spliced(t, c, u, other);
    let i = u.category_index(other);
    assert(0 <= i < u.categories.len() && u.category_ids()[i] == other);
}

/// After the deletion of `c`, every transaction that was filed under `c` is
/// filed under the sentinel, and no transaction points at a missing category.
pub proof fn transactions_fall_back_to_the_sentinel(t: Tables, c: i64, u: Tables, x: i64)
    requires
        t.wf(),
        t.delete_category(c) == Ok::<Tables, StoreError>(u),
        t.has_transaction(x),
        t.transaction(x).category_id == c,
    ensures
        u.has_transaction(x),
        Some(u.transaction(x).category_id) == t.sentinel(),
        u.has_category(u.transaction(x).category_id),
        !u.has_transaction_in(c),
{
    deletion_keeps_integrity(t, c, u);
    every_transaction_is_refiled(t, c, u, x);
    let i = u.transaction_index(x);
    assert(0 <= i < u.transactions.len() && u.transaction_ids()[i] == x);
    if u.has_transaction_in(c) {
        let j = choose|j: int|
            0 <= j < u.transactions.len() && (#[trigger] u.transactions[j]).category_id == c;
        assert(u.has_category(u.transactions[j].category_id));
    }
}

/// The deletion of a category without children and without transactions
/// removes its row and changes nothing else. It succeeds exactly where the
/// category exists and is not the sentinel, and a sentinel exists.
pub proof fn deleting_a_leaf_removes_one_row(t: Tables, c: i64)
    requires
        t.wf(),
        !t.has_child(c),
        !t.has_transaction_in(c),
    ensures
        t.delete_category(c) is Ok <==> t.has_category(c) && t.sentinel() is Some && t.sentinel()
            != Some(c),
        t.delete_category(c) matches Ok(u) ==> u == t.without_category(c) && u.categories
            == t.categories.remove(t.category_index(c)) && u.transactions == t.transactions
            && u.accounts == t.accounts,
{
    lemma_deletion_facts(t, c);
    if t.has_other_child(c) {
        let i = choose|i: int|
            0 <= i < t.categories.len() && (#[trigger] t.categories[i]).parent_id == Some(c)
                && t.categories[i].id != c;
        assert(t.has_child(c));
    }
    if let Ok(u) = t.delete_category(c) {
        let fallback = t.sentinel()->Some_0;
        crate::engine::lemma_reassign_wf(t, c, fallback);
    }
}

/// Deleting is not idempotent: once `c` is deleted, deleting `c` again
/// fails, because no category has the id any more.
pub proof fn deleting_twice_fails(t: Tables, c: i64, u: Tables)
    requires
        t.wf(),
        t.delete_category(c) == Ok::<Tables, StoreError>(u),
    ensures
        u.delete_category(c) == Err::<Tables, StoreError>(StoreError::NotFound),
{
    deletion_keeps_integrity(t, c, u);
}

/// Deleting an id that no category has fails, whatever else the ledger holds.
pub proof fn deleting_a_missing_category_fails(t: Tables, c: i64)
    requires
        !t.has_category(c),
    ensures
        t.delete_category(c) is Err,
{
}

/// Taking out a row that is not the sentinel leaves the sentinel as it is.
pub proof fn lemma_sentinel_without(t: Tables, k: int)
    requires
        0 <= k < t.categories.len(),
        t.sentinel() != Some(t.categories[k].id),
    ensures
        (Tables { categories: t.categories.remove(k), ..t }).sentinel() == t.sentinel(),
{
    let u = Tables { categories: t.categories.remove(k), ..t };
    let n = t.categories.len() as int;
    lemma_sentinel_index(t, n);
    lemma_sentinel_index(u, n - 1);
    assert forall|j: int| 0 <= j < n - 1 implies #[trigger] u.categories[j] == t.categories[if j
        < k {
        j
    } else {
        j + 1
    }] by {}
    match t.sentinel_index_in(n) {
        Some(i) => {
            let at = if i < k {
                i
            } else {
                i - 1
            };
            assert(u.categories[at] == t.categories[i]);
            match u.sentinel_index_in(n - 1) {
                Some(m) => {
                    if m < at {
                        assert(u.categories[m].name != sentinel_name());
                    } else if at < m {
                        assert(u.categories[at].name != sentinel_name());
                    }
                },
                None => {
                    assert(u.categories[at].name != sentinel_name());
                },
            }
        },
        None => {
            if let Some(m) = u.sentinel_index_in(n - 1) {
                let from = if m < k {
                    m
                } else {
                    m + 1
                };
                assert(t.categories[from].name != sentinel_name());
            }
        },
    }
}

} // verus!

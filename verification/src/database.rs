//! Setting up a ledger.
//!
//! A ledger must hold the "Uncategorized" category before the first
//! transaction is written, because every transaction names a category.

use vstd::prelude::*;
use crate::categories::{add_category, lemma_insert_category_wf};
use crate::error::StoreError;
use crate::store::{Store, Tables, lemma_sentinel_index, sentinel_name};

verus! {

impl Tables {
    /// Effect of seeding: where no category is named "Uncategorized", one is
    /// created, as a root category; otherwise nothing changes.
    pub open spec fn seed(self) -> Result<Tables, StoreError> {
        if self.sentinel() is Some {
            Ok(self)
        } else {
            self.insert_category(sentinel_name(), None)
        }
    }
}

/// Seeding a ledger that has no sentinel makes the new category the sentinel.
pub proof fn lemma_seed_makes_sentinel(t: Tables)
    requires
        t.sentinel() is None,
        t.seed() is Ok,
    ensures
        t.seed()->Ok_0.sentinel() == Some(t.next_category_id()),
{
    let u = t.seed()->Ok_0;
    let n = t.categories.len() as int;
    lemma_sentinel_index(t, n);
    lemma_sentinel_index(u, n + 1);
    assert(u.categories[n].name == sentinel_name());
    match u.sentinel_index_in(n + 1) {
        Some(i) => {
            if i < n {
                assert(u.categories[i] == t.categories[i]);
            }
        },
        None => {},
    }
}

/// The name of the category that transactions fall back to.
pub fn sentinel_label() -> (name: &'static str)
    ensures
        name@ == sentinel_name(),
{
    "Uncategorized"
}

/// Makes sure that the "Uncategorized" category exists: creates it, without
/// a parent, unless a category of that name is there already.
pub fn seed_system_data(store: &mut Store) -> (r: Result<(), StoreError>)
    requires
        old(store)@.wf(),
    ensures
        final(store)@.wf(),
        match old(store)@.seed() {
            Ok(tables) => r is Ok && final(store)@ == tables && tables.sentinel() is Some,
            Err(e) => r == Err::<(), StoreError>(e) && final(store)@ == old(store)@,
        },
{
    let found = store.select_sentinel();
    if found.len() > 0 {
        return Ok(());
    }
    proof {
        if store@.seed() is Ok {
            lemma_seed_makes_sentinel(store@);
        }
    }
    add_category(store, sentinel_label().to_owned(), None)
}

/// A new ledger, seeded: it holds the "Uncategorized" category, with the id
/// 1, and nothing else.
pub fn init_db() -> (r: Result<Store, StoreError>)
    ensures
        r matches Ok(store) && store@.wf() && Ok::<Tables, StoreError>(store@)
            == Tables::empty().seed() && store@.sentinel() == Some(1i64),
{
    let mut store = Store::new();
    proof {
        lemma_sentinel_index(Tables::empty(), 0);
        lemma_seed_makes_sentinel(Tables::empty());
    }
    match seed_system_data(&mut store) {
        Ok(()) => Ok(store),
        Err(e) => Err(e),
    }
}

} // verus!

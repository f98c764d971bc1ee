//! Schema changes that a ledger on disk goes through.
//!
//! Each migration has a name, under which the ledger records that it was
//! applied, and runs once. This module decides which migrations are still to
//! run, and in which order; running them is the storage engine's work.

use vstd::prelude::*;

verus! {

/// A schema change.
#[derive(Clone, Copy, Debug, PartialEq, Eq)]
pub enum Migration {
    /// Gives accounts the archived flag, off for every existing account.
    AddArchivedColumn,
}

impl Migration {
    /// The name under which the migration is recorded.
    pub open spec fn name_text(self) -> Seq<char> {
        match self {
            Migration::AddArchivedColumn => "001_add_archived_column"@,
        }
    }

    /// The statement that carries the migration out.
    pub open spec fn sql_text(self) -> Seq<char> {
        match self {
            Migration::AddArchivedColumn =>
                "ALTER TABLE accounts ADD COLUMN archived BOOLEAN NOT NULL DEFAULT FALSE"@,
        }
    }

    /// The name under which the migration is recorded.
    pub fn name(&self) -> (text: &'static str)
        ensures
            text@ == self.name_text(),
    {
        match self {
            Migration::AddArchivedColumn => "001_add_archived_column",
        }
    }

    /// The statement that carries the migration out.
    pub fn sql(&self) -> (text: &'static str)
        ensures
            text@ == self.sql_text(),
    {
        match self {
            Migration::AddArchivedColumn =>
                "ALTER TABLE accounts ADD COLUMN archived BOOLEAN NOT NULL DEFAULT FALSE",
        }
    }
}

/// Every migration, in the order in which they are applied.
pub open spec fn registry() -> Seq<Migration> {
    seq![Migration::AddArchivedColumn]
}

/// The names in `applied`, as character sequences.
pub open spec fn names(applied: Seq<String>) -> Seq<Seq<char>> {
    Seq::new(applied.len(), |i: int| applied[i]@)
}

/// The test that a migration is not recorded in `applied`.
pub open spec fn not_in(applied: Seq<Seq<char>>) -> spec_fn(Migration) -> bool {
    |m: Migration| !applied.contains(m.name_text())
}

/// The migrations still to run on a ledger that records `applied`: those of
/// the registry that are not recorded, in registry order.
pub open spec fn pending(applied: Seq<Seq<char>>) -> Seq<Migration> {
    registry().filter(not_in(applied))
}

/// Every migration, in the order in which they are applied.
pub fn migration_registry() -> (all: Vec<Migration>)
    ensures
        all@ == registry(),
{
    let mut all: Vec<Migration> = Vec::new();
    all.push(Migration::AddArchivedColumn);
    assert(all@ =~= registry());
    all
}

/// Whether `applied` records the migration.
pub fn is_applied(applied: &Vec<String>, migration: Migration) -> (found: bool)
    ensures
        found == names(applied@).contains(migration.name_text()),
{
    let name = migration.name().to_owned();
    let mut i: usize = 0;
    while i < applied.len()
        invariant
            i <= applied.len(),
            name@ == migration.name_text(),
            forall|k: int| 0 <= k < i ==> #[trigger] names(applied@)[k] != migration.name_text(),
        decreases applied.len() - i,
    {
        if applied[i] == name {
            assert(names(applied@)[i as int] == migration.name_text());
            return true;
        }
        i += 1;
    }
    false
}

/// The migrations still to run, in the order in which to run them, given the
/// names that the ledger records as applied.
pub fn pending_migrations(applied: &Vec<String>) -> (waiting: Vec<Migration>)
    ensures
        waiting@ == pending(names(applied@)),
{
    let all = migration_registry();
    let mut waiting: Vec<Migration> = Vec::new();
    let mut i: usize = 0;
    let ghost test = not_in(names(applied@));
    proof {
        reveal(Seq::filter);
        assert(all@.take(0) =~= Seq::empty());
    }
    while i < all.len()
        invariant
            i <= all.len(),
            all@ == registry(),
            test == not_in(names(applied@)),
            waiting@ == all@.take(i as int).filter(test),
        decreases all.len() - i,
    {
        proof {
            reveal(Seq::filter);
            let next = all@.take(i + 1);
            assert(next.drop_last() =~= all@.take(i as int));
            assert(next.last() == all@[i as int]);
            assert(next.filter(test) == if test(next.last()) {
                next.drop_last().filter(test).push(next.last())
            } else {
                next.drop_last().filter(test)
            });
        }
        if !is_applied(applied, all[i]) {
            waiting.push(all[i]);
        }
        i += 1;
    }
    assert(all@.take(i as int) =~= all@);
    waiting
}

} // verus!

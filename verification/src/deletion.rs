//! Deleting a category, one command at a time.
//!
//! The storage engine is outside this crate, so deleting a category is
//! written as a plan: [`DeletePlan::start`] names the first command, and
//! [`DeletePlan::resume`] takes the engine's reply and names the next one, or
//! the result. Whoever holds the engine sends each command and hands the reply
//! back. All the steps run inside one transaction, which is undone on the
//! first failure.
//!
//! The steps: the children of the category are given its own parent, so that
//! the category is cut out of its chain and nothing else moves; its
//! transactions are filed under the "Uncategorized" category; its row is
//! removed.
//!
//! [`lemma_deletion_step`] shows that on an engine that answers as
//! [`EngineState::respond`] says, every step keeps the plan on the way to
//! [`Tables::delete_category`], and that the plan ends.

use vstd::prelude::*;
use crate::engine::{
    Command, EngineState, Reply, ReplyView, child_of, lemma_reassign_wf, lemma_remove_category_wf,
    lemma_reparent_wf,
};
use crate::error::StoreError;
use crate::records::CategoryView;
use crate::store::{Tables, lemma_sentinel_index, sentinel_name};

verus! {

/// The reply that a plan is waiting for.
#[derive(Debug, PartialEq, Eq)]
pub enum Stage {
    /// `Begin` was sent.
    Begin,
    /// `SelectChildren` was sent.
    Children,
    /// `SelectParent` was sent.
    Parent,
    /// `ReparentChildren` was sent.
    Reparent,
    /// `SelectSentinel` was sent.
    Sentinel,
    /// `ReassignTransactions` was sent.
    Reassign,
    /// `DeleteCategory` was sent.
    Removal,
    /// `Commit` was sent.
    Commit,
    /// `Rollback` was sent, because of this failure.
    Rollback(StoreError),
}

/// A deletion under way.
#[derive(Debug, PartialEq, Eq)]
pub struct DeletePlan {
    /// The category to delete.
    pub category_id: i64,
    /// What the plan is waiting for.
    pub stage: Stage,
}

/// What to do next.
#[derive(Debug, PartialEq, Eq)]
pub enum Step {
    /// Send the command and resume the plan with the reply.
    Run(DeletePlan, Command),
    /// The deletion is over, with this result.
    Finish(Result<(), StoreError>),
}

/// The failure that a reply stands for: the engine's own, or a reply of the
/// wrong kind.
pub open spec fn failure_of(reply: ReplyView) -> StoreError {
    match reply {
        ReplyView::Failed(e) => e,
        _ => StoreError::Protocol,
    }
}

impl DeletePlan {
    /// The step that sends `command` and then waits in `stage`.
    pub open spec fn go(category_id: i64, stage: Stage, command: Command) -> Step {
        Step::Run(DeletePlan { category_id, stage }, command)
    }

    /// The step that undoes the transaction because of `failure`.
    pub open spec fn undo(category_id: i64, failure: StoreError) -> Step {
        Self::go(category_id, Stage::Rollback(failure), Command::Rollback)
    }

    /// The first step of deleting `category_id`.
    pub open spec fn first(category_id: i64) -> Step {
        Self::go(category_id, Stage::Begin, Command::Begin)
    }

    /// The step after the reply to `SelectChildren`, `SelectParent` or
    /// `ReparentChildren`: the children of the category inherit its parent.
    /// Without children there is nothing to look up or to rewrite. A category
    /// whose row is not found passes on no parent.
    pub open spec fn after_orphaned_categories(self, reply: ReplyView) -> Step {
        let id = self.category_id;
        match (self.stage, reply) {
            (Stage::Children, ReplyView::Ids(children)) => if children.len() == 0 {
                Self::go(id, Stage::Sentinel, Command::SelectSentinel)
            } else {
                Self::go(id, Stage::Parent, Command::SelectParent { category_id: id })
            },
            (Stage::Parent, ReplyView::Parents(rows)) => Self::go(
                id,
                Stage::Reparent,
                Command::ReparentChildren {
                    from: id,
                    to: if rows.len() == 0 {
                        None
                    } else {
                        rows[0]
                    },
                },
            ),
            (Stage::Reparent, ReplyView::Done) => Self::go(
                id,
                Stage::Sentinel,
                Command::SelectSentinel,
            ),
            _ => Self::undo(id, failure_of(reply)),
        }
    }

    /// The step after the reply to `SelectSentinel` or `ReassignTransactions`:
    /// the transactions of the category go to the sentinel. Without a
    /// sentinel, and where the sentinel is the category itself, the deletion
    /// is undone.
    pub open spec fn after_orphaned_transactions(self, reply: ReplyView) -> Step {
        let id = self.category_id;
        match (self.stage, reply) {
            (Stage::Sentinel, ReplyView::Ids(rows)) => if rows.len() == 0 {
                Self::undo(id, StoreError::SentinelMissing)
            } else if rows[0] == id {
                Self::undo(id, StoreError::SentinelProtected)
            } else {
                Self::go(
                    id,
                    Stage::Reassign,
                    Command::ReassignTransactions { from: id, to: rows[0] },
                )
            },
            (Stage::Reassign, ReplyView::Done) => Self::go(
                id,
                Stage::Removal,
                Command::DeleteCategory { category_id: id },
            ),
            _ => Self::undo(id, failure_of(reply)),
        }
    }

    /// The step after `reply`.
    pub open spec fn next(self, reply: ReplyView) -> Step {
        let id = self.category_id;
        match self.stage {
            Stage::Begin => match reply {
                ReplyView::Done => Self::go(
                    id,
                    Stage::Children,
                    Command::SelectChildren { parent_id: id },
                ),
                _ => Step::Finish(Err(failure_of(reply))),
            },
            Stage::Children | Stage::Parent | Stage::Reparent => self.after_orphaned_categories(
                reply,
            ),
            Stage::Sentinel | Stage::Reassign => self.after_orphaned_transactions(reply),
            Stage::Removal => match reply {
                ReplyView::Affected(n) => if n == 0 {
                    Self::undo(id, StoreError::NotFound)
                } else {
                    Self::go(id, Stage::Commit, Command::Commit)
                },
                _ => Self::undo(id, failure_of(reply)),
            },
            Stage::Commit => match reply {
                ReplyView::Done => Step::Finish(Ok(())),
                _ => Self::undo(id, failure_of(reply)),
            },
            Stage::Rollback(failure) => Step::Finish(Err(failure)),
        }
    }
}

/// Takes the failure out of a reply that cannot be used.
fn into_failure(reply: Reply) -> (failure: StoreError)
    ensures
        failure == failure_of(reply@),
{
    match reply {
        Reply::Failed(e) => e,
        _ => StoreError::Protocol,
    }
}

/// The step that undoes the transaction because of `failure`.
fn undo(category_id: i64, failure: StoreError) -> (step: Step)
    ensures
        step == DeletePlan::undo(category_id, failure),
{
    Step::Run(DeletePlan { category_id, stage: Stage::Rollback(failure) }, Command::Rollback)
}

/// The step that sends `command` and then waits in `stage`.
fn go(category_id: i64, stage: Stage, command: Command) -> (step: Step)
    ensures
        step == DeletePlan::go(category_id, stage, command),
{
    Step::Run(DeletePlan { category_id, stage }, command)
}

impl DeletePlan {
    /// Begins deleting the category `category_id`: the first command opens a
    /// transaction.
    pub fn start(category_id: i64) -> (step: Step)
        ensures
            step == Self::first(category_id),
    {
        go(category_id, Stage::Begin, Command::Begin)
    }

    /// Reassigns the child categories of the category being deleted: they
    /// inherit its parent, and become root categories where it has none.
    pub fn handle_orphaned_categories(self, reply: Reply) -> (step: Step)
        ensures
            step == self.after_orphaned_categories(reply@),
    {
        let id = self.category_id;
        match (self.stage, reply) {
            (Stage::Children, Reply::Ids(children)) => {
                if children.len() == 0 {
                    go(id, Stage::Sentinel, Command::SelectSentinel)
                } else {
                    go(id, Stage::Parent, Command::SelectParent { category_id: id })
                }
            },
            (Stage::Parent, Reply::Parents(rows)) => {
                let to: Option<i64> = if rows.len() == 0 {
                    None
                } else {
                    rows[0]
                };
                go(id, Stage::Reparent, Command::ReparentChildren { from: id, to })
            },
            (Stage::Reparent, Reply::Done) => go(id, Stage::Sentinel, Command::SelectSentinel),
            (_, reply) => undo(id, into_failure(reply)),
        }
    }

    /// Reassigns the transactions of the category being deleted to the
    /// "Uncategorized" category, which must exist and be another category.
    pub fn handle_orphaned_transactions(self, reply: Reply) -> (step: Step)
        ensures
            step == self.after_orphaned_transactions(reply@),
    {
        let id = self.category_id;
        match (self.stage, reply) {
            (Stage::Sentinel, Reply::Ids(rows)) => {
                if rows.len() == 0 {
                    undo(id, StoreError::SentinelMissing)
                } else if rows[0] == id {
                    undo(id, StoreError::SentinelProtected)
                } else {
                    go(id, Stage::Reassign, Command::ReassignTransactions { from: id, to: rows[0] })
                }
            },
            (Stage::Reassign, Reply::Done) => go(
                id,
                Stage::Removal,
                Command::DeleteCategory { category_id: id },
            ),
            (_, reply) => undo(id, into_failure(reply)),
        }
    }

    /// Takes the reply to the last command and names the next step.
    pub fn resume(self, reply: Reply) -> (step: Step)
        ensures
            step == self.next(reply@),
    {
        let id = self.category_id;
        match self.stage {
            Stage::Begin => match reply {
                Reply::Done => go(id, Stage::Children, Command::SelectChildren { parent_id: id }),
                reply => Step::Finish(Err(into_failure(reply))),
            },
            Stage::Children | Stage::Parent | Stage::Reparent => self.handle_orphaned_categories(
                reply,
            ),
            Stage::Sentinel | Stage::Reassign => self.handle_orphaned_transactions(reply),
            Stage::Removal => match reply {
                Reply::Affected(n) => {
                    if n == 0 {
                        undo(id, StoreError::NotFound)
                    } else {
                        go(id, Stage::Commit, Command::Commit)
                    }
                },
                reply => undo(id, into_failure(reply)),
            },
            Stage::Commit => match reply {
                Reply::Done => Step::Finish(Ok(())),
                reply => undo(id, into_failure(reply)),
            },
            Stage::Rollback(failure) => Step::Finish(Err(failure)),
        }
    }
}

/// A query for children returns no row exactly where there is no child.
pub proof fn lemma_children_empty(rows: Seq<CategoryView>, id: i64)
    ensures
        rows.filter(child_of(id)).len() == 0 <==> forall|i: int|
            0 <= i < rows.len() ==> (#[trigger] rows[i]).parent_id != Some(id),
    decreases rows.len(),
{
    reveal(Seq::filter);
    if rows.len() > 0 {
        let init = rows.drop_last();
        lemma_children_empty(init, id);
        if rows.filter(child_of(id)).len() == 0 {
            assert forall|i: int| 0 <= i < rows.len() implies (#[trigger] rows[i]).parent_id
                != Some(id) by {
                if i < init.len() {
                    assert(init[i] == rows[i]);
                }
            }
        } else if init.filter(child_of(id)).len() != 0 {
            let i = choose|i: int| 0 <= i < init.len() && (#[trigger] init[i]).parent_id == Some(id);
            assert(rows[i] == init[i]);
        }
    }
}

/// Tables whose categories agree in id and name, row by row, have the same sentinel.
pub proof fn lemma_sentinel_same(t: Tables, u: Tables, n: int)
    requires
        t.categories.len() == u.categories.len(),
        0 <= n <= t.categories.len(),
        forall|i: int|
            0 <= i < t.categories.len() ==> (#[trigger] t.categories[i]).name
                == u.categories[i].name && t.categories[i].id == u.categories[i].id,
    ensures
        t.sentinel_index_in(n) == u.sentinel_index_in(n),
        n == t.categories.len() ==> t.sentinel() == u.sentinel(),
    decreases n,
{
    if n > 0 {
        lemma_sentinel_same(t, u, n - 1);
        assert(t.categories[n - 1].name == u.categories[n - 1].name);
    }
    if n == t.categories.len() {
        if let Some(i) = t.sentinel_index_in(n) {
            lemma_sentinel_index(t, n);
            assert(t.categories[i].id == u.categories[i].id);
        }
    }
}

/// The sentinel, where there is one, is a category named "Uncategorized".
pub proof fn lemma_sentinel_exists(t: Tables)
    ensures
        t.sentinel() matches Some(id) ==> t.has_category(id) && exists|i: int|
            0 <= i < t.categories.len() && (#[trigger] t.categories[i]).id == id
                && t.categories[i].name == sentinel_name(),
{
    lemma_sentinel_index(t, t.categories.len() as int);
    if let Some(i) = t.sentinel_index_in(t.categories.len() as int) {
        assert(t.category_ids()[i] == t.categories[i].id);
    }
}

/// How many commands a deletion may still send.
pub open spec fn steps_left(step: Step) -> nat {
    match step {
        Step::Finish(_) => 0,
        Step::Run(plan, _) => match plan.stage {
            Stage::Begin => 9,
            Stage::Children => 8,
            Stage::Parent => 7,
            Stage::Reparent => 6,
            Stage::Sentinel => 5,
            Stage::Reassign => 4,
            Stage::Removal => 3,
            Stage::Commit => 2,
            Stage::Rollback(_) => 1,
        },
    }
}

/// A deletion of `id` that began on the tables `start` is where it should
/// be: the engine holds what the steps so far have made of `start`, the
/// command about to be sent is the one the next step needs, and a failure on
/// record is the one that `start` calls for.
pub open spec fn on_track(start: Tables, id: i64, engine: EngineState, step: Step) -> bool {
    let promoted = start.reparent(id, start.parent_of(id));
    match step {
        Step::Finish(Ok(())) => engine.saved is None && start.delete_category(id) == Ok::<
            Tables,
            StoreError,
        >(engine.live),
        Step::Finish(Err(e)) => engine == (EngineState { live: start, saved: None })
            && start.delete_category(id) == Err::<Tables, StoreError>(e),
        Step::Run(plan, command) => plan.category_id == id && match plan.stage {
            Stage::Begin => command == Command::Begin && engine == (EngineState {
                live: start,
                saved: None,
            }),
            Stage::Children => command == (Command::SelectChildren { parent_id: id }) && engine
                == (EngineState { live: start, saved: Some(start) }),
            Stage::Parent => command == (Command::SelectParent { category_id: id }) && engine
                == (EngineState { live: start, saved: Some(start) }) && start.has_child(id),
            Stage::Reparent => command == (Command::ReparentChildren {
                from: id,
                to: start.parent_of(id),
            }) && engine == (EngineState { live: start, saved: Some(start) })
                && start.has_child(id),
            Stage::Sentinel => command == Command::SelectSentinel && engine == (EngineState {
                live: promoted,
                saved: Some(start),
            }),
            Stage::Reassign => start.sentinel() matches Some(fallback) && fallback != id
                && command == (Command::ReassignTransactions { from: id, to: fallback })
                && engine == (EngineState { live: promoted, saved: Some(start) }),
            Stage::Removal => start.sentinel() matches Some(fallback) && fallback != id
                && command == (Command::DeleteCategory { category_id: id }) && engine
                == (EngineState { live: promoted.reassign(id, fallback), saved: Some(start) }),
            Stage::Commit => command == Command::Commit && engine.saved == Some(start)
                && start.delete_category(id) == Ok::<Tables, StoreError>(engine.live),
            Stage::Rollback(e) => command == Command::Rollback && engine.saved == Some(start)
                && start.delete_category(id) == Err::<Tables, StoreError>(e),
        },
    }
}

/// What the steps of a deletion meet on tables that keep their integrity.
pub proof fn lemma_deletion_facts(start: Tables, id: i64)
    requires
        start.wf(),
    ensures
        start.children_of(id).len() == 0 <==> !start.has_child(id),
        ({
            let rows = start.parent_rows(id);
            start.parent_of(id) == if rows.len() == 0 {
                None
            } else {
                rows[0]
            }
        }),
        start.reparent_children(id, start.parent_of(id)) is Ok,
        ({
            let promoted = start.reparent(id, start.parent_of(id));
            &&& promoted.wf()
            &&& !start.has_child(id) ==> promoted == start
            &&& promoted.sentinel() == start.sentinel()
            &&& promoted.has_category(id) == start.has_category(id)
            &&& start.sentinel() matches Some(fallback) ==> {
                let moved = promoted.reassign(id, fallback);
                &&& promoted.reassign_transactions(id, fallback) is Ok
                &&& moved.wf()
                &&& moved.has_category(id) == start.has_category(id)
                &&& fallback != id ==> !moved.has_transaction_in(id)
                &&& moved.has_other_child(id) <==> start.parent_of(id) == Some(id)
                    && start.has_other_child(id)
            }
        }),
{
    lemma_children_empty(start.categories, id);
    if start.has_category(id) {
        let k = start.category_index(id);
        assert(0 <= k < start.categories.len() && start.category_ids()[k] == id);
        if let Some(p) = start.categories[k].parent_id {
            assert(start.has_category(p));
        }
    }
    let to = start.parent_of(id);
    lemma_reparent_wf(start, id, to);
    let promoted = start.reparent(id, to);
    lemma_sentinel_same(start, promoted, start.categories.len() as int);
    if let Some(fallback) = start.sentinel() {
        lemma_sentinel_exists(start);
        lemma_reassign_wf(promoted, id, fallback);
        let moved = promoted.reassign(id, fallback);
        assert(moved.category_ids() =~= start.category_ids());
        if moved.has_other_child(id) {
            let i = choose|i: int|
                0 <= i < moved.categories.len() && (#[trigger] moved.categories[i]).parent_id
                    == Some(id) && moved.categories[i].id != id;
            assert(start.categories[i].id != id);
            if start.categories[i].parent_id != Some(id) {
                assert(moved.categories[i] == start.categories[i]);
            }
        }
        if to == Some(id) && start.has_other_child(id) {
            let i = choose|i: int|
                0 <= i < start.categories.len() && (#[trigger] start.categories[i]).parent_id
                    == Some(id) && start.categories[i].id != id;
            assert(moved.categories[i].parent_id == Some(id) && moved.categories[i].id != id);
        }
    }
}

/// One step of a deletion keeps it on track, and brings it nearer its end.
pub proof fn lemma_deletion_step(
    start: Tables,
    id: i64,
    engine: EngineState,
    plan: DeletePlan,
    command: Command,
)
    requires
        start.wf(),
        engine.wf(),
        on_track(start, id, engine, Step::Run(plan, command)),
    ensures
        ({
            let (after, reply) = engine.respond(command);
            &&& after.wf()
            &&& on_track(start, id, after, plan.next(reply))
            &&& steps_left(plan.next(reply)) < steps_left(Step::Run(plan, command))
        }),
{
    lemma_deletion_facts(start, id);
    let promoted = start.reparent(id, start.parent_of(id));
    let (after, reply) = engine.respond(command);
    match plan.stage {
        Stage::Removal => {
            let fallback = start.sentinel()->Some_0;
            let moved = promoted.reassign(id, fallback);
            if moved.remove_category(id) is Ok {
                lemma_remove_category_wf(moved, id);
            }
        },
        _ => {},
    }
}

} // verus!
